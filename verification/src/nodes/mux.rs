//! Multiplexer and demultiplexer: typed routing nodes whose port type is
//! taken from the first typed wire and whose slot count is bounded.
use vstd::prelude::*;
use crate::ports::{NodeId, PortType, UiPortDef, PortView, ParamChange, ParamValue, plain_port, port_views};
use crate::nodes::{ports1, ports2, numbered, numbered_ports};
use crate::text::{decimal_chars, with_number};

verus! {

/// The bounds of a slot count and the count a new node starts with.
#[derive(Clone, Copy, Debug, PartialEq, Eq, Structural)]
pub struct SlotRange {
    pub min: usize,
    pub max: usize,
    pub default: usize,
}

impl SlotRange {
    pub open spec fn wf(self) -> bool {
        self.min <= self.default <= self.max && self.max < usize::MAX
    }

    pub open spec fn clamp_spec(self, n: usize) -> usize {
        if n < self.min {
            self.min
        } else if n > self.max {
            self.max
        } else {
            n
        }
    }

    /// `n` clamped into `min..=max`.
    pub fn clamp_slots(&self, n: usize) -> (r: usize)
        requires
            self.wf(),
        ensures
            r == self.clamp_spec(n),
            self.min <= r <= self.max,
    {
        if n < self.min {
            self.min
        } else if n > self.max {
            self.max
        } else {
            n
        }
    }
}

/// A routing node adopts the type of the first typed wire it sees, and only
/// while it is still untyped.
pub open spec fn mux_adopts(current: PortType, t: PortType) -> bool {
    current == PortType::Any && t != PortType::Any
}

pub open spec fn type_change_spec(current: PortType, t: PortType) -> (PortType, Option<PortType>) {
    if mux_adopts(current, t) {
        (t, Some(t))
    } else {
        (current, None)
    }
}

pub const MULTIPLEXER_DESCRIPTION: &'static str = "Routes one of N typed inputs to a single output based on the `select` index (rounded, clamped 0..N-1). Port type auto-detected from the first connection; slot count set in the inspector.";

pub const DEMULTIPLEXER_DESCRIPTION: &'static str = "Routes a typed input to one of N outputs based on the `select` index. Unselected outputs emit zero. Port type auto-detected from the first connection; slot count set in the inspector.";

/// One of N typed inputs to one output.
pub struct MultiplexerWidget<S> {
    pub id: NodeId,
    pub shared: S,
    pub port_type: PortType,
    pub slots: usize,
    pub range: SlotRange,
}

impl<S> MultiplexerWidget<S> {
    pub open spec fn wf(&self) -> bool {
        self.range.wf() && self.range.min <= self.slots <= self.range.max
    }

    pub fn new(id: NodeId, shared: S, range: SlotRange) -> (r: Self)
        requires
            range.wf(),
        ensures
            r.wf(),
            r.id == id,
            r.shared == shared,
            r.port_type == PortType::Any,
            r.slots == range.default,
            r.range == range,
    {
        MultiplexerWidget { id, shared, port_type: PortType::Any, slots: range.default, range }
    }

    /// Applies restored state before the first stale-connection sweep.
    pub fn set_state_from_load(&mut self, port_type: PortType, slots: usize)
        requires
            old(self).wf(),
        ensures
            final(self).shared == old(self).shared,
            final(self).wf(),
            final(self).port_type == port_type,
            final(self).slots == old(self).range.clamp_spec(slots),
            final(self).range == old(self).range,
            final(self).id == old(self).id,
            final(self).shared == old(self).shared,
    {
        self.port_type = port_type;
        self.slots = self.range.clamp_slots(slots);
    }

    pub fn node_id(&self) -> (r: NodeId)
        ensures
            r == self.id,
    {
        self.id
    }

    /// The node keeps its automatic size on the canvas.
    pub fn resizable(&self) -> (r: bool)
        ensures
            r == false,
    {
        false
    }

    pub fn type_label(&self) -> (r: &'static str)
        ensures
            r@ == "Multiplexer"@,
    {
        "Multiplexer"
    }

    pub fn description(&self) -> (r: &'static str)
        ensures
            r@ == MULTIPLEXER_DESCRIPTION@,
    {
        MULTIPLEXER_DESCRIPTION
    }

    /// `select`, then `in0`..`in{slots-1}` of the node's type.
    pub fn ui_inputs(&self) -> (r: Vec<UiPortDef>)
        requires
            self.wf(),
        ensures
            port_views(r@) == seq![plain_port("select"@, PortType::Untyped)] + numbered_ports(
                "in"@,
                0,
                self.slots as nat,
                self.port_type,
            ),
    {
        let mut v = ports1(UiPortDef::plain("select", PortType::Untyped));
        let mut rest = numbered("in", 0, self.slots, self.port_type);
        let ghost a = v@;
        let ghost b = rest@;
        v.append(&mut rest);
        proof {
            assert(port_views(v@) =~= port_views(a) + port_views(b));
        }
        v
    }

    pub fn ui_outputs(&self) -> (r: Vec<UiPortDef>)
        ensures
            port_views(r@) == seq![plain_port("out"@, self.port_type)],
    {
        ports1(UiPortDef::plain("out", self.port_type))
    }

    /// The node's status line: until a wire sets the type, "Connect to set
    /// type"; then the selected input, "in{selected} → out".
    pub fn status_text(&self, selected: usize) -> (r: String)
        ensures
            self.port_type == PortType::Any ==> r@ == "Connect to set type"@,
            self.port_type != PortType::Any ==> r@ == "in"@ + decimal_chars(selected as nat) + " → out"@,
    {
        if self.port_type == PortType::Any {
            String::from_str("Connect to set type")
        } else {
            let mut s = with_number("in", selected);
            s.append(" → out");
            s
        }
    }

    pub fn shared_state(&self) -> (r: &S)
        ensures
            *r == self.shared,
    {
        &self.shared
    }

    /// A wire reached an input; `select` (input 0) is ignored. Returns the
    /// type to announce when the node adopted one.
    pub fn on_ui_connect(&mut self, input_port: usize, source_type: PortType) -> (r: Option<
        PortType,
    >)
        ensures
            final(self).shared == old(self).shared,
            input_port == 0 ==> final(self).port_type == old(self).port_type && r.is_none(),
            input_port != 0 ==> (final(self).port_type, r) == type_change_spec(
                old(self).port_type,
                source_type,
            ),
            final(self).slots == old(self).slots,
            final(self).range == old(self).range,
            final(self).id == old(self).id,
            final(self).shared == old(self).shared,
    {
        if input_port == 0 {
            return None;
        }
        if self.port_type == PortType::Any && source_type != PortType::Any {
            self.port_type = source_type;
            Some(source_type)
        } else {
            None
        }
    }

    pub fn on_ui_output_connect(&mut self, output_port: usize, dest_type: PortType) -> (r: Option<
        PortType,
    >)
        ensures
            final(self).shared == old(self).shared,
            (final(self).port_type, r) == type_change_spec(old(self).port_type, dest_type),
            final(self).slots == old(self).slots,
            final(self).range == old(self).range,
            final(self).id == old(self).id,
            final(self).shared == old(self).shared,
    {
        if self.port_type == PortType::Any && dest_type != PortType::Any {
            self.port_type = dest_type;
            Some(dest_type)
        } else {
            None
        }
    }
}

/// One typed input to one of N outputs.
pub struct DemultiplexerWidget<S> {
    pub id: NodeId,
    pub shared: S,
    pub port_type: PortType,
    pub slots: usize,
    pub range: SlotRange,
}

impl<S> DemultiplexerWidget<S> {
    pub open spec fn wf(&self) -> bool {
        self.range.wf() && self.range.min <= self.slots <= self.range.max
    }

    pub fn new(id: NodeId, shared: S, range: SlotRange) -> (r: Self)
        requires
            range.wf(),
        ensures
            r.wf(),
            r.id == id,
            r.shared == shared,
            r.port_type == PortType::Any,
            r.slots == range.default,
            r.range == range,
    {
        DemultiplexerWidget { id, shared, port_type: PortType::Any, slots: range.default, range }
    }

    pub fn set_state_from_load(&mut self, port_type: PortType, slots: usize)
        requires
            old(self).wf(),
        ensures
            final(self).shared == old(self).shared,
            final(self).wf(),
            final(self).port_type == port_type,
            final(self).slots == old(self).range.clamp_spec(slots),
            final(self).range == old(self).range,
            final(self).id == old(self).id,
            final(self).shared == old(self).shared,
    {
        self.port_type = port_type;
        self.slots = self.range.clamp_slots(slots);
    }

    pub fn node_id(&self) -> (r: NodeId)
        ensures
            r == self.id,
    {
        self.id
    }

    /// The node keeps its automatic size on the canvas.
    pub fn resizable(&self) -> (r: bool)
        ensures
            r == false,
    {
        false
    }

    pub fn type_label(&self) -> (r: &'static str)
        ensures
            r@ == "Demultiplexer"@,
    {
        "Demultiplexer"
    }

    pub fn description(&self) -> (r: &'static str)
        ensures
            r@ == DEMULTIPLEXER_DESCRIPTION@,
    {
        DEMULTIPLEXER_DESCRIPTION
    }

    pub fn ui_inputs(&self) -> (r: Vec<UiPortDef>)
        ensures
            port_views(r@) == seq![
                plain_port("select"@, PortType::Untyped),
                plain_port("in"@, self.port_type),
            ],
    {
        ports2(UiPortDef::plain("select", PortType::Untyped), UiPortDef::plain("in", self.port_type))
    }

    /// `out0`..`out{slots-1}` of the node's type.
    pub fn ui_outputs(&self) -> (r: Vec<UiPortDef>)
        requires
            self.wf(),
        ensures
            port_views(r@) == numbered_ports("out"@, 0, self.slots as nat, self.port_type),
    {
        numbered("out", 0, self.slots, self.port_type)
    }

    /// The node's status line: until a wire sets the type, "Connect to set
    /// type"; then the selected output, "in → out{selected}".
    pub fn status_text(&self, selected: usize) -> (r: String)
        ensures
            self.port_type == PortType::Any ==> r@ == "Connect to set type"@,
            self.port_type != PortType::Any ==> r@ == "in → out"@ + decimal_chars(selected as nat),
    {
        if self.port_type == PortType::Any {
            String::from_str("Connect to set type")
        } else {
            with_number("in → out", selected)
        }
    }

    pub fn shared_state(&self) -> (r: &S)
        ensures
            *r == self.shared,
    {
        &self.shared
    }

    pub fn on_ui_connect(&mut self, input_port: usize, source_type: PortType) -> (r: Option<
        PortType,
    >)
        ensures
            final(self).shared == old(self).shared,
            input_port == 0 ==> final(self).port_type == old(self).port_type && r.is_none(),
            input_port != 0 ==> (final(self).port_type, r) == type_change_spec(
                old(self).port_type,
                source_type,
            ),
            final(self).slots == old(self).slots,
            final(self).range == old(self).range,
            final(self).id == old(self).id,
            final(self).shared == old(self).shared,
    {
        if input_port == 0 {
            return None;
        }
        if self.port_type == PortType::Any && source_type != PortType::Any {
            self.port_type = source_type;
            Some(source_type)
        } else {
            None
        }
    }

    pub fn on_ui_output_connect(&mut self, output_port: usize, dest_type: PortType) -> (r: Option<
        PortType,
    >)
        ensures
            final(self).shared == old(self).shared,
            (final(self).port_type, r) == type_change_spec(old(self).port_type, dest_type),
            final(self).slots == old(self).slots,
            final(self).range == old(self).range,
            final(self).id == old(self).id,
            final(self).shared == old(self).shared,
    {
        if self.port_type == PortType::Any && dest_type != PortType::Any {
            self.port_type = dest_type;
            Some(dest_type)
        } else {
            None
        }
    }

    /// The inspector picked a port type.
    pub fn choose_type(&mut self, t: PortType) -> (r: PortType)
        ensures
            final(self).shared == old(self).shared,
            final(self).port_type == t,
            r == t,
            final(self).slots == old(self).slots,
            final(self).range == old(self).range,
            final(self).id == old(self).id,
            final(self).shared == old(self).shared,
    {
        self.port_type = t;
        t
    }

    /// The inspector picked a slot count (the slider keeps it in range);
    /// returns the slot-count parameter change to push.
    pub fn choose_slots(&mut self, slots: usize) -> (r: ParamChange)
        requires
            old(self).wf(),
            old(self).range.min <= slots <= old(self).range.max,
            slots <= i64::MAX,
        ensures
            final(self).shared == old(self).shared,
            final(self).wf(),
            final(self).slots == slots,
            r == (ParamChange { index: 1, value: ParamValue::Int(slots as i64) }),
            final(self).port_type == old(self).port_type,
            final(self).range == old(self).range,
            final(self).id == old(self).id,
            final(self).shared == old(self).shared,
    {
        self.slots = slots;
        ParamChange { index: 1, value: ParamValue::Int(slots as i64) }
    }
}

/// A routing node's type, once adopted, is never replaced by a wire.
pub proof fn lemma_type_sticks(current: PortType, t: PortType)
    requires
        current != PortType::Any,
    ensures
        type_change_spec(current, t) == (current, None::<PortType>),
{
}

} // verus!
