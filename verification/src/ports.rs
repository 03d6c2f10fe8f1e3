//! Identifiers, port types and port descriptions shared by the node graph
//! and the node widgets.
use vstd::prelude::*;

verus! {

/// Identifier of a node inside a graph level.
#[derive(Clone, Copy, Debug, PartialEq, Eq, Structural)]
pub struct NodeId(pub u64);

/// Signal type of a port. Ports can only be wired when their types are
/// compatible (see [`PortType::compatible_with`]).
#[derive(Clone, Copy, Debug, PartialEq, Eq, Structural)]
pub enum PortType {
    /// Bistate signal: >= 0.5 is high.
    Logic,
    /// Unipolar 0..1 wrapping signal.
    Phase,
    /// Generic signal of any range.
    Untyped,
    /// Accepts any signal type.
    Any,
    Color,
    Position,
    Palette,
    Gradient,
    /// A stack of colours.
    ColorStack,
}

/// Direction of a port on a node.
#[derive(Clone, Copy, Debug, PartialEq, Eq, Structural)]
pub enum PortDir {
    Input,
    Output,
}

/// Fully qualified port: node, index on that node, and direction.
#[derive(Clone, Copy, Debug, PartialEq, Eq, Structural)]
pub struct PortId {
    pub node: NodeId,
    pub index: usize,
    pub dir: PortDir,
}

/// A wire from an output port to an input port.
#[derive(Clone, Copy, Debug, PartialEq, Eq, Structural)]
pub struct Connection {
    pub from: PortId,
    pub to: PortId,
}

/// 8-bit RGB colour used for port fills.
#[derive(Clone, Copy, Debug, PartialEq, Eq, Structural)]
pub struct Rgb {
    pub r: u8,
    pub g: u8,
    pub b: u8,
}

/// Whether two port types may be wired together: equal types match, and
/// `Any` matches every type.
pub open spec fn types_compatible(a: PortType, b: PortType) -> bool {
    a == b || a == PortType::Any || b == PortType::Any
}

/// Type compatibility is symmetric, every type matches itself, `Any`
/// matches every type, and two different types other than `Any` never
/// match.
pub proof fn lemma_types_compatible(a: PortType, b: PortType)
    ensures
        types_compatible(a, b) == types_compatible(b, a),
        types_compatible(a, a),
        types_compatible(a, PortType::Any),
        types_compatible(PortType::Any, a),
        a != b && a != PortType::Any && b != PortType::Any ==> !types_compatible(a, b),
{
}

impl PortType {
    pub fn compatible_with(&self, other: &PortType) -> (r: bool)
        ensures
            r == types_compatible(*self, *other),
    {
        *self == *other || *self == PortType::Any || *other == PortType::Any
    }
}

/// Number of port types, and their order in type pickers.
pub const PORT_TYPE_COUNT: usize = 9;

/// Position of a port type in the type picker order
/// (Logic, Phase, Untyped, Any, Color, Position, Palette, Gradient, ColorStack).
pub open spec fn type_index(t: PortType) -> nat {
    match t {
        PortType::Logic => 0,
        PortType::Phase => 1,
        PortType::Untyped => 2,
        PortType::Any => 3,
        PortType::Color => 4,
        PortType::Position => 5,
        PortType::Palette => 6,
        PortType::Gradient => 7,
        PortType::ColorStack => 8,
    }
}

/// Port type at a picker position; positions past the end read as `Untyped`.
pub open spec fn type_at_index(i: nat) -> PortType {
    if i == 0 { PortType::Logic }
    else if i == 1 { PortType::Phase }
    else if i == 3 { PortType::Any }
    else if i == 4 { PortType::Color }
    else if i == 5 { PortType::Position }
    else if i == 6 { PortType::Palette }
    else if i == 7 { PortType::Gradient }
    else if i == 8 { PortType::ColorStack }
    else { PortType::Untyped }
}

pub fn port_type_to_idx(t: PortType) -> (r: usize)
    ensures
        r == type_index(t),
        r < PORT_TYPE_COUNT,
{
    match t {
        PortType::Logic => 0,
        PortType::Phase => 1,
        PortType::Untyped => 2,
        PortType::Any => 3,
        PortType::Color => 4,
        PortType::Position => 5,
        PortType::Palette => 6,
        PortType::Gradient => 7,
        PortType::ColorStack => 8,
    }
}

pub fn port_type_from_idx(i: usize) -> (r: PortType)
    ensures
        r == type_at_index(i as nat),
{
    match i {
        0 => PortType::Logic,
        1 => PortType::Phase,
        3 => PortType::Any,
        4 => PortType::Color,
        5 => PortType::Position,
        6 => PortType::Palette,
        7 => PortType::Gradient,
        8 => PortType::ColorStack,
        _ => PortType::Untyped,
    }
}

/// Reading back a picker position gives the type it was taken from.
pub proof fn lemma_type_index_roundtrip(t: PortType)
    ensures
        type_at_index(type_index(t)) == t,
        type_index(t) < PORT_TYPE_COUNT,
{
}

/// A named, typed port.
pub struct PortDef {
    pub name: String,
    pub port_type: PortType,
}

/// Abstract value of a port as shown in the UI.
pub struct PortView {
    pub name: Seq<char>,
    pub port_type: PortType,
    pub fill: Option<Rgb>,
    pub marker: Option<Seq<char>>,
    pub disabled: bool,
}

/// A port as the UI shows it: its definition plus optional fill colour,
/// a marker glyph, and whether it is greyed out.
pub struct UiPortDef {
    pub def: PortDef,
    pub fill: Option<Rgb>,
    pub marker: Option<String>,
    pub disabled: bool,
}

pub open spec fn opt_string_view(s: Option<String>) -> Option<Seq<char>> {
    match s {
        Some(x) => Some(x@),
        None => None,
    }
}

impl View for UiPortDef {
    type V = PortView;

    open spec fn view(&self) -> PortView {
        PortView {
            name: self.def.name@,
            port_type: self.def.port_type,
            fill: self.fill,
            marker: opt_string_view(self.marker),
            disabled: self.disabled,
        }
    }
}

/// The plain view of a port: name and type, no fill, no marker, enabled.
pub open spec fn plain_port(name: Seq<char>, t: PortType) -> PortView {
    PortView { name, port_type: t, fill: None, marker: None, disabled: false }
}

/// Views of a list of UI ports.
pub open spec fn port_views(ports: Seq<UiPortDef>) -> Seq<PortView> {
    ports.map_values(|p: UiPortDef| p@)
}

/// Names and types of a list of port definitions, as plain UI ports.
pub open spec fn def_views(defs: Seq<PortDef>) -> Seq<PortView> {
    defs.map_values(|d: PortDef| plain_port(d.name@, d.port_type))
}

impl PortDef {
    pub fn new(name: &str, port_type: PortType) -> (r: PortDef)
        ensures
            r.name@ == name@,
            r.port_type == port_type,
    {
        PortDef { name: String::from_str(name), port_type }
    }

    pub fn from_string(name: String, port_type: PortType) -> (r: PortDef)
        ensures
            r.name@ == name@,
            r.port_type == port_type,
    {
        PortDef { name, port_type }
    }

    pub fn duplicate(&self) -> (r: PortDef)
        ensures
            r.name@ == self.name@,
            r.port_type == self.port_type,
    {
        PortDef { name: self.name.clone(), port_type: self.port_type }
    }
}

impl UiPortDef {
    pub fn from_def(def: &PortDef) -> (r: UiPortDef)
        ensures
            r@ == plain_port(def.name@, def.port_type),
    {
        UiPortDef { def: def.duplicate(), fill: None, marker: None, disabled: false }
    }

    /// A plain UI port with the given name and type.
    pub fn plain(name: &str, t: PortType) -> (r: UiPortDef)
        ensures
            r@ == plain_port(name@, t),
    {
        UiPortDef::from_def(&PortDef::new(name, t))
    }

    /// A plain UI port with an owned name.
    pub fn plain_owned(name: String, t: PortType) -> (r: UiPortDef)
        ensures
            r@ == plain_port(name@, t),
    {
        UiPortDef { def: PortDef { name, port_type: t }, fill: None, marker: None, disabled: false }
    }

    pub fn with_fill(self, fill: Rgb) -> (r: UiPortDef)
        ensures
            r@ == (PortView { fill: Some(fill), ..self@ }),
    {
        UiPortDef { fill: Some(fill), ..self }
    }

    pub fn with_marker(self, marker: &str) -> (r: UiPortDef)
        ensures
            r@ == (PortView { marker: Some(marker@), ..self@ }),
    {
        UiPortDef { marker: Some(String::from_str(marker)), ..self }
    }

    pub fn with_disabled(self, disabled: bool) -> (r: UiPortDef)
        ensures
            r@ == (PortView { disabled, ..self@ }),
    {
        UiPortDef { disabled, ..self }
    }
}

/// Turns every definition into a plain UI port, in order.
pub fn ui_ports_from_defs(defs: &Vec<PortDef>) -> (r: Vec<UiPortDef>)
    ensures
        port_views(r@) == def_views(defs@),
{
    let mut r: Vec<UiPortDef> = Vec::new();
    let mut i: usize = 0;
    while i < defs.len()
        invariant
            i <= defs.len(),
            port_views(r@) == def_views(defs@.take(i as int)),
        decreases defs.len() - i,
    {
        let p = UiPortDef::from_def(&defs[i]);
        let ghost prev = r@;
        r.push(p);
        proof {
            assert(defs@.take(i + 1) == defs@.take(i as int).push(defs@[i as int]));
            assert(r@ == prev.push(p));
            assert(port_views(r@) =~= port_views(prev).push(p@));
            assert(def_views(defs@.take(i + 1)) =~= def_views(defs@.take(i as int)).push(
                plain_port(defs@[i as int].name@, defs@[i as int].port_type)));
        }
        i += 1;
    }
    proof {
        assert(defs@.take(defs.len() as int) =~= defs@);
    }
    r
}

/// A parameter value pushed to the processing side. Floating-point
/// parameters are handled outside this library.
#[derive(Clone, Copy, Debug, PartialEq, Eq, Structural)]
pub enum ParamValue {
    Int(i64),
    Bool(bool),
    Choice(usize),
}

/// A parameter change: parameter index and new value.
#[derive(Clone, Copy, Debug, PartialEq, Eq, Structural)]
pub struct ParamChange {
    pub index: usize,
    pub value: ParamValue,
}

/// Whether input `i` is reported as wired; missing entries read as unwired.
pub open spec fn is_wired(inputs_connected: Seq<bool>, i: int) -> bool {
    0 <= i < inputs_connected.len() && inputs_connected[i]
}

pub fn input_wired(inputs_connected: &[bool], i: usize) -> (r: bool)
    ensures
        r == is_wired(inputs_connected@, i as int),
{
    i < inputs_connected.len() && inputs_connected[i]
}

pub fn make_port_id(node_id: NodeId, dir: PortDir, index: usize) -> (r: PortId)
    ensures
        r == (PortId { node: node_id, index, dir }),
{
    PortId { node: node_id, index, dir }
}

} // verus!
