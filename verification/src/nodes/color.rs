//! Colour, palette and colour-stack nodes, including the merge/split
//! nodes that pick their mode from the first wire attached to them.
use vstd::prelude::*;
use crate::ports::{
    NodeId, PortType, PortDef, UiPortDef, PortView, ParamChange, ParamValue, plain_port,
    port_views, def_views, ui_ports_from_defs,
};
use crate::nodes::{ports1, ports2, ports4, names_view};

verus! {

/// Mode of the colour merge/split nodes.
#[derive(Clone, Copy, Debug, PartialEq, Eq, Structural)]
pub enum ColorMode {
    /// Not decided yet: a single `Any` port on each side.
    Neutral,
    Rgb,
    Hsv,
    Rgbw,
    Cmy,
    /// Four colours into (or out of) one palette.
    Palette,
}

/// Mode a Color Merge takes after seeing a wire of type `t`. Only a
/// neutral node changes mode. `is_input_side` is true for wires on the
/// component (input) side.
pub open spec fn merge_mode(current: ColorMode, t: PortType, is_input_side: bool) -> ColorMode {
    if current != ColorMode::Neutral {
        current
    } else if is_input_side {
        if t == PortType::Color { ColorMode::Palette } else { ColorMode::Rgb }
    } else if t == PortType::Palette {
        ColorMode::Palette
    } else if t == PortType::Color {
        ColorMode::Rgb
    } else {
        ColorMode::Neutral
    }
}

/// Mode a Color Split takes after seeing a wire of type `t`; its inputs are
/// the colour side and its outputs the component side.
pub open spec fn split_mode(current: ColorMode, t: PortType, is_input_side: bool) -> ColorMode {
    if current != ColorMode::Neutral {
        current
    } else if is_input_side {
        if t == PortType::Palette {
            ColorMode::Palette
        } else if t == PortType::Color {
            ColorMode::Rgb
        } else {
            ColorMode::Neutral
        }
    } else if t == PortType::Color {
        ColorMode::Palette
    } else {
        ColorMode::Rgb
    }
}

pub fn infer_mode_merge(current: ColorMode, port_type: PortType, is_input_side: bool) -> (r:
    ColorMode)
    ensures
        r == merge_mode(current, port_type, is_input_side),
{
    if current != ColorMode::Neutral {
        return current;
    }
    if is_input_side {
        if port_type == PortType::Color { ColorMode::Palette } else { ColorMode::Rgb }
    } else {
        match port_type {
            PortType::Palette => ColorMode::Palette,
            PortType::Color => ColorMode::Rgb,
            _ => ColorMode::Neutral,
        }
    }
}

pub fn infer_mode_split(current: ColorMode, port_type: PortType, is_input_side: bool) -> (r:
    ColorMode)
    ensures
        r == split_mode(current, port_type, is_input_side),
{
    if current != ColorMode::Neutral {
        return current;
    }
    if is_input_side {
        match port_type {
            PortType::Palette => ColorMode::Palette,
            PortType::Color => ColorMode::Rgb,
            _ => ColorMode::Neutral,
        }
    } else {
        if port_type == PortType::Color { ColorMode::Palette } else { ColorMode::Rgb }
    }
}

/// Once a merge/split node has left the neutral mode, no wire changes it.
pub proof fn lemma_mode_sticks(m: ColorMode, t: PortType, side: bool)
    requires
        m != ColorMode::Neutral,
    ensures
        merge_mode(m, t, side) == m,
        split_mode(m, t, side) == m,
{
}

/// The component-side ports of a mode: one `Any` port while neutral, one
/// colour port per channel in palette mode, otherwise one untyped port per
/// channel on the component side and a single colour port on the other.
pub open spec fn mode_port_views(
    mode: ColorMode,
    is_component_side: bool,
    channel_names: Seq<Seq<char>>,
) -> Seq<PortView> {
    if mode == ColorMode::Neutral {
        seq![plain_port("?"@, PortType::Any)]
    } else if mode == ColorMode::Palette {
        channel_names.map_values(|n: Seq<char>| plain_port(n, PortType::Color))
    } else if is_component_side {
        channel_names.map_values(|n: Seq<char>| plain_port(n, PortType::Untyped))
    } else {
        seq![plain_port("color"@, PortType::Color)]
    }
}

fn defs_for_names(names: &Vec<String>, t: PortType) -> (r: Vec<PortDef>)
    ensures
        def_views(r@) == names_view(names@).map_values(|n: Seq<char>| plain_port(n, t)),
{
    let mut r: Vec<PortDef> = Vec::new();
    let mut i: usize = 0;
    while i < names.len()
        invariant
            i <= names.len(),
            def_views(r@) == names_view(names@.take(i as int)).map_values(
                |n: Seq<char>| plain_port(n, t),
            ),
        decreases names.len() - i,
    {
        let d = PortDef { name: names[i].clone(), port_type: t };
        let ghost prev = r@;
        r.push(d);
        proof {
            assert(names@.take(i + 1) == names@.take(i as int).push(names@[i as int]));
            assert(r@ == prev.push(d));
            assert(def_views(r@) =~= def_views(prev).push(plain_port(d.name@, t)));
            assert(names_view(names@.take(i + 1)).map_values(|n: Seq<char>| plain_port(n, t))
                =~= names_view(names@.take(i as int)).map_values(|n: Seq<char>| plain_port(n, t)).push(
                plain_port(names@[i as int]@, t)));
        }
        i += 1;
    }
    proof {
        assert(names@.take(names.len() as int) =~= names@);
    }
    r
}

/// The port definitions of a mode on one side; `channel_names` are the
/// component names of the mode as the processing side defines them.
pub fn make_port_defs(mode: ColorMode, is_component_side: bool, channel_names: &Vec<String>) -> (r:
    Vec<PortDef>)
    ensures
        def_views(r@) == mode_port_views(mode, is_component_side, names_view(channel_names@)),
{
    match mode {
        ColorMode::Neutral => {
            let mut v: Vec<PortDef> = Vec::new();
            v.push(PortDef::new("?", PortType::Any));
            proof { assert(def_views(v@) =~= seq![plain_port("?"@, PortType::Any)]); }
            v
        },
        ColorMode::Palette => defs_for_names(channel_names, PortType::Color),
        _ => {
            if is_component_side {
                defs_for_names(channel_names, PortType::Untyped)
            } else {
                let mut v: Vec<PortDef> = Vec::new();
                v.push(PortDef::new("color", PortType::Color));
                proof { assert(def_views(v@) =~= seq![plain_port("color"@, PortType::Color)]); }
                v
            }
        },
    }
}

/// The single port on the colour side of a merge/split node.
pub open spec fn color_side_port(mode: ColorMode) -> PortView {
    if mode == ColorMode::Neutral {
        plain_port("?"@, PortType::Any)
    } else if mode == ColorMode::Palette {
        plain_port("palette"@, PortType::Palette)
    } else {
        plain_port("color"@, PortType::Color)
    }
}

fn color_side_ports(mode: ColorMode) -> (r: Vec<UiPortDef>)
    ensures
        port_views(r@) == seq![color_side_port(mode)],
{
    match mode {
        ColorMode::Neutral => ports1(UiPortDef::plain("?", PortType::Any)),
        ColorMode::Palette => ports1(UiPortDef::plain("palette", PortType::Palette)),
        _ => ports1(UiPortDef::plain("color", PortType::Color)),
    }
}

pub const COLOR_MERGE_DESCRIPTION: &'static str = "Combines components into a color. Mode (RGB/HSV/RGBW/CMY/Palette) is auto-detected from the first connection.";

pub const COLOR_SPLIT_DESCRIPTION: &'static str = "Splits a color into components. Mode (RGB/HSV/RGBW/CMY/Palette) is auto-detected from the first connection.";

/// Components into a colour (or four colours into a palette).
pub struct ColorMergeWidget<S> {
    pub id: NodeId,
    pub shared: S,
    pub mode: ColorMode,
}

impl<S> ColorMergeWidget<S> {
    pub fn new(id: NodeId, shared: S) -> (r: Self)
        ensures
            r.id == id,
            r.shared == shared,
            r.mode == ColorMode::Neutral,
    {
        ColorMergeWidget { id, shared, mode: ColorMode::Neutral }
    }

    pub fn node_id(&self) -> (r: NodeId)
        ensures
            r == self.id,
    {
        self.id
    }

    /// The node keeps its automatic size on the canvas.
    pub fn resizable(&self) -> (r: bool)
        ensures
            r == false,
    {
        false
    }

    pub fn type_label(&self) -> (r: &'static str)
        ensures
            r@ == "Color Merge"@,
    {
        "Color Merge"
    }

    pub fn title(&self) -> (r: &'static str)
        ensures
            r@ == "Color Merge"@,
    {
        "Color Merge"
    }

    pub fn description(&self) -> (r: &'static str)
        ensures
            r@ == COLOR_MERGE_DESCRIPTION@,
    {
        COLOR_MERGE_DESCRIPTION
    }

    /// `channel_names` are the component names of the current mode.
    pub fn ui_inputs(&self, channel_names: &Vec<String>) -> (r: Vec<UiPortDef>)
        ensures
            port_views(r@) == mode_port_views(self.mode, true, names_view(channel_names@)),
    {
        let defs = make_port_defs(self.mode, true, channel_names);
        ui_ports_from_defs(&defs)
    }

    pub fn ui_outputs(&self) -> (r: Vec<UiPortDef>)
        ensures
            port_views(r@) == seq![color_side_port(self.mode)],
    {
        color_side_ports(self.mode)
    }

    pub fn shared_state(&self) -> (r: &S)
        ensures
            *r == self.shared,
    {
        &self.shared
    }

    /// A wire reached a component input; returns the new mode to announce
    /// to the processing side when the mode changed.
    pub fn on_ui_connect(&mut self, input_port: usize, source_type: PortType) -> (r: Option<
        ColorMode,
    >)
        ensures
            final(self).shared == old(self).shared,
            final(self).mode == merge_mode(old(self).mode, source_type, true),
            final(self).id == old(self).id,
            final(self).shared == old(self).shared,
            r == (if final(self).mode != old(self).mode { Some(final(self).mode) } else { None }),
    {
        let new_mode = infer_mode_merge(self.mode, source_type, true);
        if new_mode != self.mode {
            self.mode = new_mode;
            Some(new_mode)
        } else {
            None
        }
    }

    /// A wire left the output; returns the new mode when it changed.
    pub fn on_ui_output_connect(&mut self, output_port: usize, dest_type: PortType) -> (r: Option<
        ColorMode,
    >)
        ensures
            final(self).shared == old(self).shared,
            final(self).mode == merge_mode(old(self).mode, dest_type, false),
            final(self).id == old(self).id,
            final(self).shared == old(self).shared,
            r == (if final(self).mode != old(self).mode { Some(final(self).mode) } else { None }),
    {
        let new_mode = infer_mode_merge(self.mode, dest_type, false);
        if new_mode != self.mode {
            self.mode = new_mode;
            Some(new_mode)
        } else {
            None
        }
    }
}

/// A colour into components (or a palette into four colours).
pub struct ColorSplitWidget<S> {
    pub id: NodeId,
    pub shared: S,
    pub mode: ColorMode,
}

impl<S> ColorSplitWidget<S> {
    pub fn new(id: NodeId, shared: S) -> (r: Self)
        ensures
            r.id == id,
            r.shared == shared,
            r.mode == ColorMode::Neutral,
    {
        ColorSplitWidget { id, shared, mode: ColorMode::Neutral }
    }

    pub fn node_id(&self) -> (r: NodeId)
        ensures
            r == self.id,
    {
        self.id
    }

    /// The node keeps its automatic size on the canvas.
    pub fn resizable(&self) -> (r: bool)
        ensures
            r == false,
    {
        false
    }

    pub fn type_label(&self) -> (r: &'static str)
        ensures
            r@ == "Color Split"@,
    {
        "Color Split"
    }

    pub fn title(&self) -> (r: &'static str)
        ensures
            r@ == "Color Split"@,
    {
        "Color Split"
    }

    pub fn description(&self) -> (r: &'static str)
        ensures
            r@ == COLOR_SPLIT_DESCRIPTION@,
    {
        COLOR_SPLIT_DESCRIPTION
    }

    pub fn ui_inputs(&self) -> (r: Vec<UiPortDef>)
        ensures
            port_views(r@) == seq![color_side_port(self.mode)],
    {
        color_side_ports(self.mode)
    }

    /// `channel_names` are the component names of the current mode.
    pub fn ui_outputs(&self, channel_names: &Vec<String>) -> (r: Vec<UiPortDef>)
        ensures
            port_views(r@) == mode_port_views(self.mode, true, names_view(channel_names@)),
    {
        let defs = make_port_defs(self.mode, true, channel_names);
        ui_ports_from_defs(&defs)
    }

    pub fn shared_state(&self) -> (r: &S)
        ensures
            *r == self.shared,
    {
        &self.shared
    }

    pub fn on_ui_connect(&mut self, input_port: usize, source_type: PortType) -> (r: Option<
        ColorMode,
    >)
        ensures
            final(self).shared == old(self).shared,
            final(self).mode == split_mode(old(self).mode, source_type, true),
            final(self).id == old(self).id,
            final(self).shared == old(self).shared,
            r == (if final(self).mode != old(self).mode { Some(final(self).mode) } else { None }),
    {
        let new_mode = infer_mode_split(self.mode, source_type, true);
        if new_mode != self.mode {
            self.mode = new_mode;
            Some(new_mode)
        } else {
            None
        }
    }

    pub fn on_ui_output_connect(&mut self, output_port: usize, dest_type: PortType) -> (r: Option<
        ColorMode,
    >)
        ensures
            final(self).shared == old(self).shared,
            final(self).mode == split_mode(old(self).mode, dest_type, false),
            final(self).id == old(self).id,
            final(self).shared == old(self).shared,
            r == (if final(self).mode != old(self).mode { Some(final(self).mode) } else { None }),
    {
        let new_mode = infer_mode_split(self.mode, dest_type, false);
        if new_mode != self.mode {
            self.mode = new_mode;
            Some(new_mode)
        } else {
            None
        }
    }
}

/// Operation applied by the Color Modifier node.
#[derive(Clone, Copy, Debug, PartialEq, Eq, Structural)]
pub enum ModifierOp {
    HueShift,
    Saturation,
    Value,
    Brightness,
    Alpha,
}

pub open spec fn modifier_hint_spec(op: ModifierOp) -> Seq<char> {
    match op {
        ModifierOp::HueShift => "amount = hue rotation (0..1 = full turn)"@,
        ModifierOp::Saturation => "amount = saturation multiplier (1.0 = pass-through)"@,
        ModifierOp::Value => "amount = value/brightness multiplier (HSV V)"@,
        ModifierOp::Brightness => "amount = RGB multiplier (linear scale)"@,
        ModifierOp::Alpha => "amount = alpha multiplier (Gradient stops only)"@,
    }
}

/// What the `amount` input means for an operation (inspector hint).
pub fn modifier_hint(op: ModifierOp) -> (r: &'static str)
    ensures
        r@ == modifier_hint_spec(op),
{
    match op {
        ModifierOp::HueShift => "amount = hue rotation (0..1 = full turn)",
        ModifierOp::Saturation => "amount = saturation multiplier (1.0 = pass-through)",
        ModifierOp::Value => "amount = value/brightness multiplier (HSV V)",
        ModifierOp::Brightness => "amount = RGB multiplier (linear scale)",
        ModifierOp::Alpha => "amount = alpha multiplier (Gradient stops only)",
    }
}

/// Name of the main port for a port type: "color", "gradient", or "?".
pub open spec fn modifier_port_name(t: PortType) -> Seq<char> {
    if t == PortType::Color {
        "color"@
    } else if t == PortType::Gradient {
        "gradient"@
    } else {
        "?"@
    }
}

/// Index of the modifier's type choice: 1 for Color, 2 for Gradient, else 0.
pub open spec fn modifier_type_choice(t: PortType) -> usize {
    if t == PortType::Color {
        1
    } else if t == PortType::Gradient {
        2
    } else {
        0
    }
}

/// The type a neutral Color Modifier takes from a wire: only Color and
/// Gradient wires decide it.
pub open spec fn modifier_adopts(current: PortType, t: PortType) -> bool {
    current == PortType::Any && (t == PortType::Color || t == PortType::Gradient)
}

pub const COLOR_MODIFIER_DESCRIPTION: &'static str = "Applies a HSV / brightness / alpha operation to a Color or Gradient signal. For gradients the op is applied to every active stop. Amount is 1.0 = identity for scale ops, 0.0 = identity for Hue Shift.";

/// HSV / brightness / alpha operation on a Color or Gradient signal.
pub struct ColorModifierWidget<S> {
    pub id: NodeId,
    pub shared: S,
    pub port_type: PortType,
    pub op: ModifierOp,
}

impl<S> ColorModifierWidget<S> {
    pub fn new(id: NodeId, shared: S) -> (r: Self)
        ensures
            r.id == id,
            r.shared == shared,
            r.port_type == PortType::Any,
            r.op == ModifierOp::HueShift,
    {
        ColorModifierWidget { id, shared, port_type: PortType::Any, op: ModifierOp::HueShift }
    }

    fn main_name(&self) -> (r: &'static str)
        ensures
            r@ == modifier_port_name(self.port_type),
    {
        match self.port_type {
            PortType::Color => "color",
            PortType::Gradient => "gradient",
            _ => "?",
        }
    }

    /// The type-choice parameter change announcing the current port type.
    fn type_change(&self) -> (r: ParamChange)
        ensures
            r == (ParamChange { index: 0, value: ParamValue::Choice(modifier_type_choice(self.port_type)) }),
    {
        let idx: usize = match self.port_type {
            PortType::Color => 1,
            PortType::Gradient => 2,
            _ => 0,
        };
        ParamChange { index: 0, value: ParamValue::Choice(idx) }
    }

    pub fn node_id(&self) -> (r: NodeId)
        ensures
            r == self.id,
    {
        self.id
    }

    /// The node keeps its automatic size on the canvas.
    pub fn resizable(&self) -> (r: bool)
        ensures
            r == false,
    {
        false
    }

    pub fn type_label(&self) -> (r: &'static str)
        ensures
            r@ == "Color Modifier"@,
    {
        "Color Modifier"
    }

    pub fn title(&self) -> (r: &'static str)
        ensures
            r@ == "Color Modifier"@,
    {
        "Color Modifier"
    }

    pub fn description(&self) -> (r: &'static str)
        ensures
            r@ == COLOR_MODIFIER_DESCRIPTION@,
    {
        COLOR_MODIFIER_DESCRIPTION
    }

    pub fn ui_inputs(&self) -> (r: Vec<UiPortDef>)
        ensures
            port_views(r@) == seq![
                plain_port(modifier_port_name(self.port_type), self.port_type),
                plain_port("amount"@, PortType::Untyped),
            ],
    {
        ports2(
            UiPortDef::plain(self.main_name(), self.port_type),
            UiPortDef::plain("amount", PortType::Untyped),
        )
    }

    pub fn ui_outputs(&self) -> (r: Vec<UiPortDef>)
        ensures
            port_views(r@) == seq![plain_port(modifier_port_name(self.port_type), self.port_type)],
    {
        ports1(UiPortDef::plain(self.main_name(), self.port_type))
    }

    pub fn shared_state(&self) -> (r: &S)
        ensures
            *r == self.shared,
    {
        &self.shared
    }

    /// Only the main input (port 0) carries type information. Returns the
    /// parameter change to push when the type was decided.
    pub fn on_ui_connect(&mut self, input_port: usize, source_type: PortType) -> (r: Option<
        ParamChange,
    >)
        ensures
            final(self).shared == old(self).shared,
            final(self).id == old(self).id,
            final(self).shared == old(self).shared,
            final(self).op == old(self).op,
            input_port == 0 && modifier_adopts(old(self).port_type, source_type) ==> {
                &&& final(self).port_type == source_type
                &&& r == Some(ParamChange { index: 0, value: ParamValue::Choice(modifier_type_choice(source_type)) })
            },
            !(input_port == 0 && modifier_adopts(old(self).port_type, source_type)) ==> {
                &&& final(self).port_type == old(self).port_type
                &&& r.is_none()
            },
    {
        if input_port != 0 {
            return None;
        }
        self.adopt(source_type)
    }

    /// Any output wire of Color or Gradient type decides a neutral modifier.
    pub fn on_ui_output_connect(&mut self, output_port: usize, dest_type: PortType) -> (r: Option<
        ParamChange,
    >)
        ensures
            final(self).shared == old(self).shared,
            final(self).id == old(self).id,
            final(self).shared == old(self).shared,
            final(self).op == old(self).op,
            modifier_adopts(old(self).port_type, dest_type) ==> {
                &&& final(self).port_type == dest_type
                &&& r == Some(ParamChange { index: 0, value: ParamValue::Choice(modifier_type_choice(dest_type)) })
            },
            !modifier_adopts(old(self).port_type, dest_type) ==> {
                &&& final(self).port_type == old(self).port_type
                &&& r.is_none()
            },
    {
        self.adopt(dest_type)
    }

    fn adopt(&mut self, t: PortType) -> (r: Option<ParamChange>)
        ensures
            final(self).id == old(self).id,
            final(self).shared == old(self).shared,
            final(self).op == old(self).op,
            modifier_adopts(old(self).port_type, t) ==> {
                &&& final(self).port_type == t
                &&& r == Some(ParamChange { index: 0, value: ParamValue::Choice(modifier_type_choice(t)) })
            },
            !modifier_adopts(old(self).port_type, t) ==> {
                &&& final(self).port_type == old(self).port_type
                &&& r.is_none()
            },
    {
        if self.port_type == PortType::Any {
            match t {
                PortType::Color | PortType::Gradient => {
                    self.port_type = t;
                    Some(self.type_change())
                },
                _ => None,
            }
        } else {
            None
        }
    }
}

/// Ports of a four-colour set, in order.
pub open spec fn four_colors() -> Seq<PortView> {
    seq![
        plain_port("primary"@, PortType::Color),
        plain_port("secondary"@, PortType::Color),
        plain_port("third"@, PortType::Color),
        plain_port("fourth"@, PortType::Color),
    ]
}

fn four_color_ports() -> (r: Vec<UiPortDef>)
    ensures
        port_views(r@) == four_colors(),
{
    ports4(
        UiPortDef::plain("primary", PortType::Color),
        UiPortDef::plain("secondary", PortType::Color),
        UiPortDef::plain("third", PortType::Color),
        UiPortDef::plain("fourth", PortType::Color),
    )
}

pub const PALETTE_SPLIT_DESCRIPTION: &'static str = "Splits a palette (4-color set) into its four individual color outputs.";

pub const PALETTE_MERGE_DESCRIPTION: &'static str = "Combines four colors into a single palette (4-color set).";

pub const STACK_SPLIT_DESCRIPTION: &'static str = "Splits a ColorStack palette into its four individual color outputs.";

pub const STACK_MERGE_DESCRIPTION: &'static str = "Combines four colors into a single ColorStack palette.";

/// A palette into its four colours.
pub struct PaletteSplitWidget<S> {
    pub id: NodeId,
    pub shared: S,
}

impl<S> PaletteSplitWidget<S> {
    pub fn new(id: NodeId, shared: S) -> (r: Self)
        ensures
            r.id == id,
            r.shared == shared,
    {
        PaletteSplitWidget { id, shared }
    }

    pub fn node_id(&self) -> (r: NodeId)
        ensures
            r == self.id,
    {
        self.id
    }

    /// The node keeps its automatic size on the canvas.
    pub fn resizable(&self) -> (r: bool)
        ensures
            r == false,
    {
        false
    }

    pub fn type_label(&self) -> (r: &'static str)
        ensures
            r@ == "Palette Split"@,
    {
        "Palette Split"
    }

    pub fn title(&self) -> (r: &'static str)
        ensures
            r@ == "Palette Split"@,
    {
        "Palette Split"
    }

    pub fn description(&self) -> (r: &'static str)
        ensures
            r@ == PALETTE_SPLIT_DESCRIPTION@,
    {
        PALETTE_SPLIT_DESCRIPTION
    }

    pub fn ui_inputs(&self) -> (r: Vec<UiPortDef>)
        ensures
            port_views(r@) == seq![plain_port("palette"@, PortType::Palette)],
    {
        ports1(UiPortDef::plain("palette", PortType::Palette))
    }

    pub fn ui_outputs(&self) -> (r: Vec<UiPortDef>)
        ensures
            port_views(r@) == four_colors(),
    {
        four_color_ports()
    }

    pub fn shared_state(&self) -> (r: &S)
        ensures
            *r == self.shared,
    {
        &self.shared
    }
}

/// Four colours into a palette.
pub struct PaletteMergeWidget<S> {
    pub id: NodeId,
    pub shared: S,
}

impl<S> PaletteMergeWidget<S> {
    pub fn new(id: NodeId, shared: S) -> (r: Self)
        ensures
            r.id == id,
            r.shared == shared,
    {
        PaletteMergeWidget { id, shared }
    }

    pub fn node_id(&self) -> (r: NodeId)
        ensures
            r == self.id,
    {
        self.id
    }

    /// The node keeps its automatic size on the canvas.
    pub fn resizable(&self) -> (r: bool)
        ensures
            r == false,
    {
        false
    }

    pub fn type_label(&self) -> (r: &'static str)
        ensures
            r@ == "Palette Merge"@,
    {
        "Palette Merge"
    }

    pub fn title(&self) -> (r: &'static str)
        ensures
            r@ == "Palette Merge"@,
    {
        "Palette Merge"
    }

    pub fn description(&self) -> (r: &'static str)
        ensures
            r@ == PALETTE_MERGE_DESCRIPTION@,
    {
        PALETTE_MERGE_DESCRIPTION
    }

    pub fn ui_inputs(&self) -> (r: Vec<UiPortDef>)
        ensures
            port_views(r@) == four_colors(),
    {
        four_color_ports()
    }

    pub fn ui_outputs(&self) -> (r: Vec<UiPortDef>)
        ensures
            port_views(r@) == seq![plain_port("palette"@, PortType::Palette)],
    {
        ports1(UiPortDef::plain("palette", PortType::Palette))
    }

    pub fn shared_state(&self) -> (r: &S)
        ensures
            *r == self.shared,
    {
        &self.shared
    }
}

/// A colour stack into its four colours.
pub struct StackSplitWidget<S> {
    pub id: NodeId,
    pub shared: S,
}

impl<S> StackSplitWidget<S> {
    pub fn new(id: NodeId, shared: S) -> (r: Self)
        ensures
            r.id == id,
            r.shared == shared,
    {
        StackSplitWidget { id, shared }
    }

    pub fn node_id(&self) -> (r: NodeId)
        ensures
            r == self.id,
    {
        self.id
    }

    /// The node keeps its automatic size on the canvas.
    pub fn resizable(&self) -> (r: bool)
        ensures
            r == false,
    {
        false
    }

    pub fn type_label(&self) -> (r: &'static str)
        ensures
            r@ == "Stack Split"@,
    {
        "Stack Split"
    }

    pub fn title(&self) -> (r: &'static str)
        ensures
            r@ == "Stack Split"@,
    {
        "Stack Split"
    }

    pub fn description(&self) -> (r: &'static str)
        ensures
            r@ == STACK_SPLIT_DESCRIPTION@,
    {
        STACK_SPLIT_DESCRIPTION
    }

    pub fn ui_inputs(&self) -> (r: Vec<UiPortDef>)
        ensures
            port_views(r@) == seq![plain_port("palette"@, PortType::ColorStack)],
    {
        ports1(UiPortDef::plain("palette", PortType::ColorStack))
    }

    pub fn ui_outputs(&self) -> (r: Vec<UiPortDef>)
        ensures
            port_views(r@) == four_colors(),
    {
        four_color_ports()
    }

    pub fn shared_state(&self) -> (r: &S)
        ensures
            *r == self.shared,
    {
        &self.shared
    }
}

/// Four colours into a colour stack.
pub struct StackMergeWidget<S> {
    pub id: NodeId,
    pub shared: S,
}

impl<S> StackMergeWidget<S> {
    pub fn new(id: NodeId, shared: S) -> (r: Self)
        ensures
            r.id == id,
            r.shared == shared,
    {
        StackMergeWidget { id, shared }
    }

    pub fn node_id(&self) -> (r: NodeId)
        ensures
            r == self.id,
    {
        self.id
    }

    /// The node keeps its automatic size on the canvas.
    pub fn resizable(&self) -> (r: bool)
        ensures
            r == false,
    {
        false
    }

    pub fn type_label(&self) -> (r: &'static str)
        ensures
            r@ == "Stack Merge"@,
    {
        "Stack Merge"
    }

    pub fn title(&self) -> (r: &'static str)
        ensures
            r@ == "Stack Merge"@,
    {
        "Stack Merge"
    }

    pub fn description(&self) -> (r: &'static str)
        ensures
            r@ == STACK_MERGE_DESCRIPTION@,
    {
        STACK_MERGE_DESCRIPTION
    }

    pub fn ui_inputs(&self) -> (r: Vec<UiPortDef>)
        ensures
            port_views(r@) == four_colors(),
    {
        four_color_ports()
    }

    pub fn ui_outputs(&self) -> (r: Vec<UiPortDef>)
        ensures
            port_views(r@) == seq![plain_port("palette"@, PortType::ColorStack)],
    {
        ports1(UiPortDef::plain("palette", PortType::ColorStack))
    }

    pub fn shared_state(&self) -> (r: &S)
        ensures
            *r == self.shared,
    {
        &self.shared
    }
}

} // verus!
