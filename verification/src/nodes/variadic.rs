//! Math, logic and bank nodes whose port lists depend on their state:
//! variadic math and logic nodes grow an input whenever a wire lands on
//! their trailing "+" port.
use vstd::prelude::*;
use crate::ports::{NodeId, PortType, PortDef, UiPortDef, PortView, Rgb, plain_port, port_views, def_views, ui_ports_from_defs, type_index, port_type_to_idx, PORT_TYPE_COUNT};
use crate::text::{input_label, input_label_chars};
use crate::nodes::{ports1, ports2, ports3, numbered, numbered_ports};

verus! {

/// Fill colour of the trailing "+" port.
pub open spec fn add_port_fill() -> Rgb {
    Rgb { r: 80, g: 200, b: 100 }
}

/// The trailing "+" port of a variadic node, of type `t`.
pub open spec fn add_port(t: PortType) -> PortView {
    PortView {
        name: "+"@,
        port_type: t,
        fill: Some(add_port_fill()),
        marker: Some("+"@),
        disabled: false,
    }
}

fn make_add_port(t: PortType) -> (r: UiPortDef)
    ensures
        r@ == add_port(t),
{
    UiPortDef::plain("+", t).with_fill(Rgb { r: 80, g: 200, b: 100 }).with_marker("+")
}

/// Type shown on a math input: the connected type, or `Any` when unwired.
pub open spec fn slot_type(t: Option<PortType>) -> PortType {
    match t {
        Some(x) => x,
        None => PortType::Any,
    }
}

/// The type of the first wired input, or `Any` when none is wired.
pub open spec fn first_typed(s: Seq<Option<PortType>>) -> PortType
    decreases s.len(),
{
    if s.len() == 0 {
        PortType::Any
    } else if s[0] is Some {
        s[0]->0
    } else {
        first_typed(s.drop_first())
    }
}

/// Labelled inputs `a`, `b`, ... with the given types.
pub open spec fn labelled_inputs(types: Seq<PortType>) -> Seq<PortView> {
    Seq::new(types.len(), |i: int| plain_port(input_label_chars(i as nat), types[i]))
}

pub open spec fn math_input_types(types: Seq<Option<PortType>>) -> Seq<PortType> {
    types.map_values(|t: Option<PortType>| slot_type(t))
}

fn labelled_ports(types: &Vec<PortType>) -> (r: Vec<UiPortDef>)
    requires
        types.len() < usize::MAX,
    ensures
        port_views(r@) == labelled_inputs(types@),
{
    let mut v: Vec<UiPortDef> = Vec::new();
    let mut i: usize = 0;
    while i < types.len()
        invariant
            i <= types.len() < usize::MAX,
            port_views(v@) == labelled_inputs(types@.take(i as int)),
        decreases types.len() - i,
    {
        let p = UiPortDef::plain_owned(input_label(i), types[i]);
        let ghost prev = v@;
        v.push(p);
        proof {
            assert(port_views(v@) =~= port_views(prev).push(p@));
            assert(labelled_inputs(types@.take(i + 1)) =~= labelled_inputs(types@.take(i as int)).push(
                p@));
        }
        i += 1;
    }
    proof {
        assert(types@.take(types.len() as int) =~= types@);
    }
    v
}

pub const MATH_DESCRIPTION: &'static str = "Arithmetic operation folded across all inputs. Drag to the green + port to add another input.";

/// Arithmetic folded across a growing list of inputs. `O` is the operation,
/// defined by the processing side.
pub struct MathWidget<O, S> {
    pub id: NodeId,
    pub op: O,
    pub shared: S,
    /// Number of real inputs; one "+" port always follows them.
    pub input_count: usize,
    /// The type of each real input; `None` while unwired.
    pub real_input_types: Vec<Option<PortType>>,
}

impl<O, S> MathWidget<O, S> {
    pub open spec fn wf(&self) -> bool {
        &&& self.real_input_types.len() == self.input_count
        &&& self.input_count < usize::MAX
    }

    pub fn new(id: NodeId, op: O, shared: S) -> (r: Self)
        ensures
            r.wf(),
            r.id == id,
            r.op == op,
            r.shared == shared,
            r.input_count == 2,
            r.real_input_types@ == seq![None::<PortType>, None::<PortType>],
    {
        let mut types: Vec<Option<PortType>> = Vec::new();
        types.push(None);
        types.push(None);
        MathWidget { id, op, shared, input_count: 2, real_input_types: types }
    }

    pub fn node_id(&self) -> (r: NodeId)
        ensures
            r == self.id,
    {
        self.id
    }

    /// The node keeps its automatic size on the canvas.
    pub fn resizable(&self) -> (r: bool)
        ensures
            r == false,
    {
        false
    }

    pub fn description(&self) -> (r: &'static str)
        ensures
            r@ == MATH_DESCRIPTION@,
    {
        MATH_DESCRIPTION
    }

    /// Type of the output: that of the first wired input, else `Any`.
    pub fn output_type(&self) -> (r: PortType)
        ensures
            r == first_typed(self.real_input_types@),
    {
        let mut i: usize = 0;
        proof {
            assert(self.real_input_types@.skip(0) =~= self.real_input_types@);
        }
        while i < self.real_input_types.len()
            invariant
                i <= self.real_input_types.len(),
                first_typed(self.real_input_types@) == first_typed(
                    self.real_input_types@.skip(i as int),
                ),
            decreases self.real_input_types.len() - i,
        {
            let ghost rest = self.real_input_types@.skip(i as int);
            match self.real_input_types[i] {
                Some(t) => {
                    return t;
                },
                None => {
                    proof {
                        assert(rest.drop_first() =~= self.real_input_types@.skip(i + 1));
                    }
                },
            }
            i += 1;
        }
        PortType::Any
    }

    /// The real inputs `a`, `b`, ... with their types, then the "+" port.
    pub fn ui_inputs(&self) -> (r: Vec<UiPortDef>)
        requires
            self.wf(),
        ensures
            port_views(r@) == labelled_inputs(math_input_types(self.real_input_types@)).push(
                add_port(PortType::Any),
            ),
    {
        let mut types: Vec<PortType> = Vec::new();
        let mut i: usize = 0;
        while i < self.input_count
            invariant
                self.wf(),
                i <= self.input_count,
                types@ == math_input_types(self.real_input_types@).take(i as int),
            decreases self.input_count - i,
        {
            let t = match self.real_input_types[i] {
                Some(x) => x,
                None => PortType::Any,
            };
            types.push(t);
            proof {
                assert(math_input_types(self.real_input_types@).take(i + 1) =~= math_input_types(
                    self.real_input_types@).take(i as int).push(t));
            }
            i += 1;
        }
        proof {
            assert(math_input_types(self.real_input_types@).take(i as int) =~= math_input_types(
                self.real_input_types@));
        }
        let mut v = labelled_ports(&types);
        let p = make_add_port(PortType::Any);
        let ghost prev = v@;
        v.push(p);
        proof {
            assert(port_views(v@) =~= port_views(prev).push(p@));
        }
        v
    }

    pub fn ui_outputs(&self) -> (r: Vec<UiPortDef>)
        ensures
            port_views(r@) == seq![plain_port("out"@, first_typed(self.real_input_types@))],
    {
        ports1(UiPortDef::plain("out", self.output_type()))
    }

    pub fn shared_state(&self) -> (r: &S)
        ensures
            *r == self.shared,
    {
        &self.shared
    }

    /// A wire landed on input `input_port`. On the "+" port the node grows
    /// by one typed input and returns the new input count to announce; on a
    /// real input it records the wire's type.
    pub fn on_ui_connect(&mut self, input_port: usize, source_type: PortType) -> (r: Option<usize>)
        requires
            old(self).wf(),
            old(self).input_count + 1 < usize::MAX,
        ensures
            final(self).shared == old(self).shared,
            final(self).wf(),
            final(self).id == old(self).id,
            final(self).op == old(self).op,
            final(self).shared == old(self).shared,
            input_port == old(self).input_count ==> {
                &&& final(self).input_count == old(self).input_count + 1
                &&& final(self).real_input_types@ == old(self).real_input_types@.push(Some(source_type))
                &&& r == Some(final(self).input_count)
            },
            input_port < old(self).input_count ==> {
                &&& final(self).input_count == old(self).input_count
                &&& final(self).real_input_types@ == old(self).real_input_types@.update(
                    input_port as int,
                    Some(source_type),
                )
                &&& r.is_none()
            },
            input_port > old(self).input_count ==> {
                &&& final(self).input_count == old(self).input_count
                &&& final(self).real_input_types@ == old(self).real_input_types@
                &&& r.is_none()
            },
    {
        if input_port == self.input_count {
            self.real_input_types.push(Some(source_type));
            self.input_count += 1;
            Some(self.input_count)
        } else if input_port < self.input_count {
            self.real_input_types.set(input_port, Some(source_type));
            None
        } else {
            None
        }
    }

    /// A wire left input `input_port`: that input is untyped again.
    pub fn on_ui_disconnect(&mut self, input_port: usize)
        requires
            old(self).wf(),
        ensures
            final(self).shared == old(self).shared,
            final(self).wf(),
            final(self).id == old(self).id,
            final(self).op == old(self).op,
            final(self).shared == old(self).shared,
            final(self).input_count == old(self).input_count,
            input_port < old(self).input_count ==> final(self).real_input_types@
                == old(self).real_input_types@.update(input_port as int, None),
            input_port >= old(self).input_count ==> final(self).real_input_types@
                == old(self).real_input_types@,
    {
        if input_port < self.real_input_types.len() {
            self.real_input_types.set(input_port, None);
        }
    }

    /// Takes over the input count reported by the processing side (after a
    /// project load); at least one input is kept. New inputs start unwired.
    pub fn sync_input_count(&mut self, n: usize)
        requires
            old(self).wf(),
            n < usize::MAX,
        ensures
            final(self).shared == old(self).shared,
            final(self).wf(),
            final(self).id == old(self).id,
            final(self).op == old(self).op,
            final(self).shared == old(self).shared,
            n == old(self).input_count ==> final(self).real_input_types@ == old(self).real_input_types@
                && final(self).input_count == old(self).input_count,
            n != old(self).input_count ==> {
                let k = if n == 0 { 1 } else { n };
                &&& final(self).input_count == k
                &&& k <= old(self).input_count ==> final(self).real_input_types@
                    == old(self).real_input_types@.take(k as int)
                &&& k > old(self).input_count ==> final(self).real_input_types@
                    == old(self).real_input_types@ + Seq::new(
                    (k - old(self).input_count) as nat,
                    |i: int| None::<PortType>,
                )
            },
    {
        if n != self.input_count {
            let k: usize = if n == 0 { 1 } else { n };
            self.input_count = k;
            if k <= self.real_input_types.len() {
                self.real_input_types.truncate(k);
            } else {
                let ghost start = self.real_input_types@;
                while self.real_input_types.len() < k
                    invariant
                        start.len() <= self.real_input_types.len() <= k < usize::MAX,
                        start == old(self).real_input_types@,
                        self.input_count == k,
                        self.id == old(self).id,
                        self.op == old(self).op,
                        self.shared == old(self).shared,
                        self.real_input_types@ == start + Seq::new(
                            (self.real_input_types.len() - start.len()) as nat,
                            |i: int| None::<PortType>,
                        ),
                    decreases k - self.real_input_types.len(),
                {
                    let ghost prev = self.real_input_types@;
                    self.real_input_types.push(None);
                    proof {
                        assert(self.real_input_types@ =~= start + Seq::new(
                            (self.real_input_types.len() - start.len()) as nat,
                            |i: int| None::<PortType>,
                        ));
                    }
                }
            }
        }
    }
}

/// Boolean operation of a logic gate.
#[derive(Clone, Copy, Debug, PartialEq, Eq, Structural)]
pub enum LogicOp {
    And,
    Or,
    Xor,
    Not,
}

pub const LOGIC_GATE_DESCRIPTION: &'static str = "Boolean logic gate. AND/OR/XOR fold across all inputs; drag to the green + port to add another. NOT is unary.";

/// Boolean gate; NOT has one input, the others grow like the math node.
pub struct LogicGateWidget<S> {
    pub id: NodeId,
    pub op: LogicOp,
    pub shared: S,
    /// Number of real inputs; NOT keeps exactly one.
    pub input_count: usize,
}

pub open spec fn logic_inputs(n: nat) -> Seq<PortView> {
    labelled_inputs(Seq::new(n, |i: int| PortType::Logic)).push(add_port(PortType::Logic))
}

impl<S> LogicGateWidget<S> {
    pub open spec fn wf(&self) -> bool {
        &&& 1 <= self.input_count < usize::MAX
        &&& self.op == LogicOp::Not ==> self.input_count == 1
    }

    pub fn new(id: NodeId, op: LogicOp, shared: S) -> (r: Self)
        ensures
            r.wf(),
            r.id == id,
            r.op == op,
            r.shared == shared,
            r.input_count == (if op == LogicOp::Not { 1usize } else { 2usize }),
    {
        let input_count: usize = if op == LogicOp::Not { 1 } else { 2 };
        LogicGateWidget { id, op, shared, input_count }
    }

    pub fn node_id(&self) -> (r: NodeId)
        ensures
            r == self.id,
    {
        self.id
    }

    /// The node keeps its automatic size on the canvas.
    pub fn resizable(&self) -> (r: bool)
        ensures
            r == false,
    {
        false
    }

    pub fn description(&self) -> (r: &'static str)
        ensures
            r@ == LOGIC_GATE_DESCRIPTION@,
    {
        LOGIC_GATE_DESCRIPTION
    }

    /// NOT: a single `in`; otherwise `a`, `b`, ... then the "+" port, all logic.
    pub fn ui_inputs(&self) -> (r: Vec<UiPortDef>)
        requires
            self.wf(),
        ensures
            self.op == LogicOp::Not ==> port_views(r@) == seq![plain_port("in"@, PortType::Logic)],
            self.op != LogicOp::Not ==> port_views(r@) == logic_inputs(self.input_count as nat),
    {
        if self.op == LogicOp::Not {
            return ports1(UiPortDef::plain("in", PortType::Logic));
        }
        let mut types: Vec<PortType> = Vec::new();
        let mut i: usize = 0;
        while i < self.input_count
            invariant
                self.wf(),
                i <= self.input_count,
                types@ == Seq::new(i as nat, |k: int| PortType::Logic),
            decreases self.input_count - i,
        {
            types.push(PortType::Logic);
            proof {
                assert(types@ =~= Seq::new((i + 1) as nat, |k: int| PortType::Logic));
            }
            i += 1;
        }
        let mut v = labelled_ports(&types);
        let p = make_add_port(PortType::Logic);
        let ghost prev = v@;
        v.push(p);
        proof {
            assert(port_views(v@) =~= port_views(prev).push(p@));
        }
        v
    }

    pub fn ui_outputs(&self) -> (r: Vec<UiPortDef>)
        ensures
            port_views(r@) == seq![plain_port("out"@, PortType::Logic)],
    {
        ports1(UiPortDef::plain("out", PortType::Logic))
    }

    pub fn shared_state(&self) -> (r: &S)
        ensures
            *r == self.shared,
    {
        &self.shared
    }

    /// A wire landing on the "+" port adds one input; returns the new input count.
    pub fn on_ui_connect(&mut self, input_port: usize, source_type: PortType) -> (r: Option<usize>)
        requires
            old(self).wf(),
            old(self).input_count + 1 < usize::MAX,
        ensures
            final(self).shared == old(self).shared,
            final(self).wf(),
            final(self).id == old(self).id,
            final(self).op == old(self).op,
            final(self).shared == old(self).shared,
            (old(self).op != LogicOp::Not && input_port == old(self).input_count) ==> {
                &&& final(self).input_count == old(self).input_count + 1
                &&& r == Some(final(self).input_count)
            },
            !(old(self).op != LogicOp::Not && input_port == old(self).input_count) ==> {
                &&& final(self).input_count == old(self).input_count
                &&& r.is_none()
            },
    {
        if self.op == LogicOp::Not {
            return None;
        }
        if input_port == self.input_count {
            self.input_count += 1;
            Some(self.input_count)
        } else {
            None
        }
    }

    /// Takes over the input count reported by the processing side; NOT
    /// stays unary and at least one input is kept.
    pub fn sync_input_count(&mut self, n: usize)
        requires
            old(self).wf(),
            n < usize::MAX,
        ensures
            final(self).shared == old(self).shared,
            final(self).wf(),
            final(self).id == old(self).id,
            final(self).op == old(self).op,
            final(self).shared == old(self).shared,
            final(self).input_count == (if old(self).op != LogicOp::Not && n != old(self).input_count {
                if n == 0 { 1 } else { n }
            } else {
                old(self).input_count
            }),
    {
        if self.op != LogicOp::Not && n != self.input_count {
            self.input_count = if n == 0 { 1 } else { n };
        }
    }
}

/// Kind of flip-flop.
#[derive(Clone, Copy, Debug, PartialEq, Eq, Structural)]
pub enum FlipFlopKind {
    Sr,
    Jk,
}

pub const SR_DESCRIPTION: &'static str = "SR latch (level-sensitive). S sets Q, R resets Q (R wins ties).";

pub const JK_DESCRIPTION: &'static str = "JK flip-flop (rising-edge clk). J=K=1 toggles, J alone sets, K alone resets.";

/// SR latch or JK flip-flop.
pub struct FlipFlopWidget<S> {
    pub id: NodeId,
    pub shared: S,
    pub kind: FlipFlopKind,
}

impl<S> FlipFlopWidget<S> {
    pub fn new(id: NodeId, shared: S, kind: FlipFlopKind) -> (r: Self)
        ensures
            r.id == id,
            r.shared == shared,
            r.kind == kind,
    {
        FlipFlopWidget { id, shared, kind }
    }

    pub fn node_id(&self) -> (r: NodeId)
        ensures
            r == self.id,
    {
        self.id
    }

    /// The node keeps its automatic size on the canvas.
    pub fn resizable(&self) -> (r: bool)
        ensures
            r == false,
    {
        false
    }

    pub fn type_label(&self) -> (r: &'static str)
        ensures
            r@ == (if self.kind == FlipFlopKind::Sr { "Flip-Flop"@ } else { "JK Flip-Flop"@ }),
    {
        match self.kind {
            FlipFlopKind::Sr => "Flip-Flop",
            FlipFlopKind::Jk => "JK Flip-Flop",
        }
    }

    pub fn title(&self) -> (r: &'static str)
        ensures
            r@ == (if self.kind == FlipFlopKind::Sr { "SR FF"@ } else { "JK FF"@ }),
    {
        match self.kind {
            FlipFlopKind::Sr => "SR FF",
            FlipFlopKind::Jk => "JK FF",
        }
    }

    pub fn description(&self) -> (r: &'static str)
        ensures
            r@ == (if self.kind == FlipFlopKind::Sr { SR_DESCRIPTION@ } else { JK_DESCRIPTION@ }),
    {
        match self.kind {
            FlipFlopKind::Sr => SR_DESCRIPTION,
            FlipFlopKind::Jk => JK_DESCRIPTION,
        }
    }

    pub fn ui_inputs(&self) -> (r: Vec<UiPortDef>)
        ensures
            self.kind == FlipFlopKind::Sr ==> port_views(r@) == seq![
                plain_port("S"@, PortType::Logic),
                plain_port("R"@, PortType::Logic),
            ],
            self.kind == FlipFlopKind::Jk ==> port_views(r@) == seq![
                plain_port("J"@, PortType::Logic),
                plain_port("K"@, PortType::Logic),
                plain_port("clk"@, PortType::Logic),
            ],
    {
        match self.kind {
            FlipFlopKind::Sr => ports2(
                UiPortDef::plain("S", PortType::Logic),
                UiPortDef::plain("R", PortType::Logic),
            ),
            FlipFlopKind::Jk => ports3(
                UiPortDef::plain("J", PortType::Logic),
                UiPortDef::plain("K", PortType::Logic),
                UiPortDef::plain("clk", PortType::Logic),
            ),
        }
    }

    pub fn ui_outputs(&self) -> (r: Vec<UiPortDef>)
        ensures
            port_views(r@) == seq![plain_port("Q"@, PortType::Logic), plain_port("!Q"@, PortType::Logic)],
    {
        ports2(UiPortDef::plain("Q", PortType::Logic), UiPortDef::plain("!Q", PortType::Logic))
    }

    pub fn shared_state(&self) -> (r: &S)
        ensures
            *r == self.shared,
    {
        &self.shared
    }
}

pub const TOGGLE_BANK_DESCRIPTION: &'static str = "Bank of independent toggle flip-flops. Each input is a rising-edge trigger; each trigger flips its matching output between 0 and 1. A small LED per channel shows the current state.";

/// Bank of independent toggles: input `T{i}` flips output `O{i}`.
pub struct ToggleBankWidget<S> {
    pub id: NodeId,
    pub shared: S,
    pub n: usize,
    pub states: Vec<bool>,
}

impl<S> ToggleBankWidget<S> {
    pub open spec fn wf(&self) -> bool {
        self.n < usize::MAX
    }

    pub fn new(id: NodeId, shared: S) -> (r: Self)
        ensures
            r.wf(),
            r.id == id,
            r.shared == shared,
            r.n == 4,
            r.states@ == seq![false, false, false, false],
    {
        let mut states: Vec<bool> = Vec::new();
        states.push(false);
        states.push(false);
        states.push(false);
        states.push(false);
        ToggleBankWidget { id, shared, n: 4, states }
    }

    /// Restores the channel count from saved data, clamped into
    /// `min..=max`; new channels start off.
    pub fn restore_channel_count(&mut self, n: u64, min: usize, max: usize)
        requires
            min <= max < usize::MAX,
        ensures
            final(self).shared == old(self).shared,
            final(self).wf(),
            final(self).id == old(self).id,
            final(self).shared == old(self).shared,
            final(self).n == (if n < min { min as int } else if n > max { max as int } else { n as int }),
            final(self).n <= old(self).states.len() ==> final(self).states@ == old(self).states@.take(
                final(self).n as int,
            ),
            final(self).n > old(self).states.len() ==> final(self).states@ == old(self).states@
                + Seq::new((final(self).n - old(self).states.len()) as nat, |i: int| false),
    {
        let k: usize = if n < min as u64 {
            min
        } else if n > max as u64 {
            max
        } else {
            n as usize
        };
        self.n = k;
        if k <= self.states.len() {
            self.states.truncate(k);
        } else {
            let ghost start = self.states@;
            while self.states.len() < k
                invariant
                    start.len() <= self.states.len() <= k,
                    start == old(self).states@,
                    self.n == k,
                    k <= max < usize::MAX,
                    self.id == old(self).id,
                    self.shared == old(self).shared,
                    self.states@ == start + Seq::new((self.states.len() - start.len()) as nat, |i: int| false),
                decreases k - self.states.len(),
            {
                self.states.push(false);
                proof {
                    assert(self.states@ =~= start + Seq::new(
                        (self.states.len() - start.len()) as nat,
                        |i: int| false,
                    ));
                }
            }
        }
    }

    pub fn node_id(&self) -> (r: NodeId)
        ensures
            r == self.id,
    {
        self.id
    }

    /// The node can be resized on the canvas.
    pub fn resizable(&self) -> (r: bool)
        ensures
            r == true,
    {
        true
    }

    pub fn type_label(&self) -> (r: &'static str)
        ensures
            r@ == "Toggle Bank"@,
    {
        "Toggle Bank"
    }

    pub fn description(&self) -> (r: &'static str)
        ensures
            r@ == TOGGLE_BANK_DESCRIPTION@,
    {
        TOGGLE_BANK_DESCRIPTION
    }

    /// `T1`..`Tn`, logic triggers.
    pub fn ui_inputs(&self) -> (r: Vec<UiPortDef>)
        requires
            self.wf(),
        ensures
            port_views(r@) == numbered_ports("T"@, 1, self.n as nat, PortType::Logic),
    {
        numbered("T", 1, self.n, PortType::Logic)
    }

    /// `O1`..`On`, untyped outputs.
    pub fn ui_outputs(&self) -> (r: Vec<UiPortDef>)
        requires
            self.wf(),
        ensures
            port_views(r@) == numbered_ports("O"@, 1, self.n as nat, PortType::Untyped),
    {
        numbered("O", 1, self.n, PortType::Untyped)
    }

    pub fn shared_state(&self) -> (r: &S)
        ensures
            *r == self.shared,
    {
        &self.shared
    }
}

pub const CONSTANT_DESCRIPTION: &'static str = "Constant value source for any port type, edited via the inspector.";

/// A constant source of any port type.
pub struct ConstantWidget<S> {
    pub id: NodeId,
    pub port_type: PortType,
    pub shared: S,
    pub outputs: Vec<PortDef>,
}

impl<S> ConstantWidget<S> {
    pub fn new(id: NodeId, port_type: PortType, shared: S) -> (r: Self)
        ensures
            r.id == id,
            r.port_type == port_type,
            r.shared == shared,
            def_views(r.outputs@) == seq![plain_port("out"@, port_type)],
    {
        let mut outputs: Vec<PortDef> = Vec::new();
        outputs.push(PortDef::new("out", port_type));
        proof {
            assert(def_views(outputs@) =~= seq![plain_port("out"@, port_type)]);
        }
        ConstantWidget { id, port_type, shared, outputs }
    }

    /// The type name of a constant depends on its port type; `names` holds
    /// the processing side's name for each port type, in picker order.
    pub fn type_label(&self, names: &Vec<&'static str>) -> (r: &'static str)
        requires
            names@.len() == PORT_TYPE_COUNT,
        ensures
            r@ == names@[type_index(self.port_type) as int]@,
    {
        names[port_type_to_idx(self.port_type)]
    }

    pub fn node_id(&self) -> (r: NodeId)
        ensures
            r == self.id,
    {
        self.id
    }

    /// The node keeps its automatic size on the canvas.
    pub fn resizable(&self) -> (r: bool)
        ensures
            r == false,
    {
        false
    }

    pub fn description(&self) -> (r: &'static str)
        ensures
            r@ == CONSTANT_DESCRIPTION@,
    {
        CONSTANT_DESCRIPTION
    }

    pub fn ui_inputs(&self) -> (r: Vec<UiPortDef>)
        ensures
            r@.len() == 0,
    {
        Vec::new()
    }

    pub fn ui_outputs(&self) -> (r: Vec<UiPortDef>)
        ensures
            port_views(r@) == def_views(self.outputs@),
    {
        ui_ports_from_defs(&self.outputs)
    }

    pub fn shared_state(&self) -> (r: &S)
        ensures
            *r == self.shared,
    {
        &self.shared
    }
}

/// A periodic function of a phase input. `F` is the waveform, defined by
/// the processing side.
pub struct OscillatorWidget<F, S> {
    pub id: NodeId,
    pub func: F,
    pub shared: S,
    pub inputs: Vec<PortDef>,
    pub outputs: Vec<PortDef>,
}

impl<F, S> OscillatorWidget<F, S> {
    pub fn new(id: NodeId, func: F, shared: S) -> (r: Self)
        ensures
            r.id == id,
            r.func == func,
            r.shared == shared,
            def_views(r.inputs@) == seq![
                plain_port("phase"@, PortType::Phase),
                plain_port("amp"@, PortType::Untyped),
            ],
            def_views(r.outputs@) == seq![plain_port("out"@, PortType::Untyped)],
    {
        let mut inputs: Vec<PortDef> = Vec::new();
        inputs.push(PortDef::new("phase", PortType::Phase));
        inputs.push(PortDef::new("amp", PortType::Untyped));
        let mut outputs: Vec<PortDef> = Vec::new();
        outputs.push(PortDef::new("out", PortType::Untyped));
        proof {
            assert(def_views(inputs@) =~= seq![
                plain_port("phase"@, PortType::Phase),
                plain_port("amp"@, PortType::Untyped),
            ]);
            assert(def_views(outputs@) =~= seq![plain_port("out"@, PortType::Untyped)]);
        }
        OscillatorWidget { id, func, shared, inputs, outputs }
    }

    pub fn node_id(&self) -> (r: NodeId)
        ensures
            r == self.id,
    {
        self.id
    }

    /// The node keeps its automatic size on the canvas.
    pub fn resizable(&self) -> (r: bool)
        ensures
            r == false,
    {
        false
    }

    pub fn ui_inputs(&self) -> (r: Vec<UiPortDef>)
        ensures
            port_views(r@) == def_views(self.inputs@),
    {
        ui_ports_from_defs(&self.inputs)
    }

    pub fn ui_outputs(&self) -> (r: Vec<UiPortDef>)
        ensures
            port_views(r@) == def_views(self.outputs@),
    {
        ui_ports_from_defs(&self.outputs)
    }

    pub fn shared_state(&self) -> (r: &S)
        ensures
            *r == self.shared,
    {
        &self.shared
    }
}

pub const TRIGGER_BANK_DESCRIPTION: &'static str = "Bank of value-to-trigger converters. Each input watches a 0..1 value; when it rises across 0.5, the matching output fires a one-tick Logic pulse. Use to turn held values (fader cells, palette select, etc.) into graph triggers.";

/// Bank of value-to-trigger converters: input `In {i}` fires output `T{i}`.
/// The per-channel flash timing is kept by the renderer.
pub struct TriggerBankWidget<S> {
    pub id: NodeId,
    pub shared: S,
    pub n: usize,
}

impl<S> TriggerBankWidget<S> {
    pub open spec fn wf(&self) -> bool {
        self.n < usize::MAX
    }

    pub fn new(id: NodeId, shared: S) -> (r: Self)
        ensures
            r.wf(),
            r.id == id,
            r.shared == shared,
            r.n == 4,
    {
        TriggerBankWidget { id, shared, n: 4 }
    }

    /// Restores the channel count from saved data, clamped into `min..=max`.
    pub fn restore_channel_count(&mut self, n: u64, min: usize, max: usize)
        requires
            min <= max < usize::MAX,
        ensures
            final(self).shared == old(self).shared,
            final(self).wf(),
            final(self).id == old(self).id,
            final(self).n == (if n < min { min as int } else if n > max { max as int } else { n as int }),
    {
        self.n = if n < min as u64 {
            min
        } else if n > max as u64 {
            max
        } else {
            n as usize
        };
    }

    pub fn node_id(&self) -> (r: NodeId)
        ensures
            r == self.id,
    {
        self.id
    }

    /// The node can be resized on the canvas.
    pub fn resizable(&self) -> (r: bool)
        ensures
            r == true,
    {
        true
    }

    pub fn type_label(&self) -> (r: &'static str)
        ensures
            r@ == "Trigger Bank"@,
    {
        "Trigger Bank"
    }

    pub fn description(&self) -> (r: &'static str)
        ensures
            r@ == TRIGGER_BANK_DESCRIPTION@,
    {
        TRIGGER_BANK_DESCRIPTION
    }

    /// `In 1`..`In n`, untyped values.
    pub fn ui_inputs(&self) -> (r: Vec<UiPortDef>)
        requires
            self.wf(),
        ensures
            port_views(r@) == numbered_ports("In "@, 1, self.n as nat, PortType::Untyped),
    {
        numbered("In ", 1, self.n, PortType::Untyped)
    }

    /// `T1`..`Tn`, logic pulses.
    pub fn ui_outputs(&self) -> (r: Vec<UiPortDef>)
        requires
            self.wf(),
        ensures
            port_views(r@) == numbered_ports("T"@, 1, self.n as nat, PortType::Logic),
    {
        numbered("T", 1, self.n, PortType::Logic)
    }

    pub fn shared_state(&self) -> (r: &S)
        ensures
            *r == self.shared,
    {
        &self.shared
    }
}

} // verus!
