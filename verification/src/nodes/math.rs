//! Fixed-shape math and signal nodes.
use vstd::prelude::*;
use crate::ports::{NodeId, PortType, UiPortDef, plain_port, port_views};
use crate::nodes::{ports1, ports2, ports3, ports4, ports5, overridden, overridden_params};

verus! {

pub const BIPOLAR_DESCRIPTION: &'static str = "Maps a unipolar input (0..1) to a bipolar signal centered on `center` with ±range/2 swing. Formula: out = (in - 0.5) * range + center. Defaults (range=1, center=0) give -0.5..+0.5.";

pub const COUNTER_DESCRIPTION: &'static str = "Counts trigger pulses and wraps at a configurable max, with a wrap signal output.";

pub const SCALER_DESCRIPTION: &'static str = "Linearly remaps an input range to an output range.";

pub const SCHMITT_DESCRIPTION: &'static str = "Comparator with hysteresis. Output flips HIGH when input rises above `threshold + hysteresis` and LOW when it falls below `threshold - hysteresis`. Set hysteresis to 0 for a plain comparator.";

pub const CHANGE_DETECT_DESCRIPTION: &'static str = "Fires a logic pulse whenever the input value changes.";

pub const POSITION_MERGE_DESCRIPTION: &'static str = "Combines pan and tilt values into a single position output.";

pub const POSITION_SPLIT_DESCRIPTION: &'static str = "Splits a position into separate pan and tilt component outputs.";

pub const PALETTE_TO_GRADIENT_DESCRIPTION: &'static str = "Builds a 4-stop gradient from a palette and one position per palette colour. Wire `pos1..pos4` to drive stop positions from the graph, or set them in the inspector.";

/// Unipolar to bipolar mapper.
pub struct BipolarWidget<S> {
    pub id: NodeId,
    pub shared: S,
}

impl<S> BipolarWidget<S> {
    pub fn new(id: NodeId, shared: S) -> (r: Self)
        ensures
            r.id == id,
            r.shared == shared,
    {
        BipolarWidget { id, shared }
    }

    pub fn node_id(&self) -> (r: NodeId)
        ensures
            r == self.id,
    {
        self.id
    }

    /// The node keeps its automatic size on the canvas.
    pub fn resizable(&self) -> (r: bool)
        ensures
            r == false,
    {
        false
    }

    pub fn type_label(&self) -> (r: &'static str)
        ensures
            r@ == "Bipolar"@,
    {
        "Bipolar"
    }

    pub fn description(&self) -> (r: &'static str)
        ensures
            r@ == BIPOLAR_DESCRIPTION@,
    {
        BIPOLAR_DESCRIPTION
    }

    pub fn ui_inputs(&self) -> (r: Vec<UiPortDef>)
        ensures
            port_views(r@) == seq![
                plain_port("in"@, PortType::Untyped),
                plain_port("range"@, PortType::Untyped),
                plain_port("center"@, PortType::Untyped),
            ],
    {
        ports3(
            UiPortDef::plain("in", PortType::Untyped),
            UiPortDef::plain("range", PortType::Untyped),
            UiPortDef::plain("center", PortType::Untyped),
        )
    }

    pub fn ui_outputs(&self) -> (r: Vec<UiPortDef>)
        ensures
            port_views(r@) == seq![plain_port("out"@, PortType::Untyped)],
    {
        ports1(UiPortDef::plain("out", PortType::Untyped))
    }

    pub fn shared_state(&self) -> (r: &S)
        ensures
            *r == self.shared,
    {
        &self.shared
    }

    /// Range (param 0) is driven by input 1 and center (param 1) by input 2.
    pub fn overridden_param_indices(&self, inputs_connected: &[bool]) -> (r: Vec<usize>)
        ensures
            r@ == overridden(inputs_connected@, 1, 2),
    {
        overridden_params(inputs_connected, 1, 2)
    }
}

/// Trigger counter with wrap output.
pub struct CounterWidget<S> {
    pub id: NodeId,
    pub shared: S,
}

impl<S> CounterWidget<S> {
    pub fn new(id: NodeId, shared: S) -> (r: Self)
        ensures
            r.id == id,
            r.shared == shared,
    {
        CounterWidget { id, shared }
    }

    pub fn node_id(&self) -> (r: NodeId)
        ensures
            r == self.id,
    {
        self.id
    }

    /// The node keeps its automatic size on the canvas.
    pub fn resizable(&self) -> (r: bool)
        ensures
            r == false,
    {
        false
    }

    pub fn type_label(&self) -> (r: &'static str)
        ensures
            r@ == "Counter"@,
    {
        "Counter"
    }

    pub fn description(&self) -> (r: &'static str)
        ensures
            r@ == COUNTER_DESCRIPTION@,
    {
        COUNTER_DESCRIPTION
    }

    pub fn ui_inputs(&self) -> (r: Vec<UiPortDef>)
        ensures
            port_views(r@) == seq![
                plain_port("trigger"@, PortType::Logic),
                plain_port("reset"@, PortType::Logic),
                plain_port("max"@, PortType::Untyped),
            ],
    {
        ports3(
            UiPortDef::plain("trigger", PortType::Logic),
            UiPortDef::plain("reset", PortType::Logic),
            UiPortDef::plain("max", PortType::Untyped),
        )
    }

    pub fn ui_outputs(&self) -> (r: Vec<UiPortDef>)
        ensures
            port_views(r@) == seq![
                plain_port("count"@, PortType::Untyped),
                plain_port("wrap"@, PortType::Logic),
            ],
    {
        ports2(UiPortDef::plain("count", PortType::Untyped), UiPortDef::plain("wrap", PortType::Logic))
    }

    pub fn shared_state(&self) -> (r: &S)
        ensures
            *r == self.shared,
    {
        &self.shared
    }

    /// The max parameter (param 0) is driven by input 2.
    pub fn overridden_param_indices(&self, inputs_connected: &[bool]) -> (r: Vec<usize>)
        ensures
            r@ == overridden(inputs_connected@, 2, 1),
    {
        overridden_params(inputs_connected, 2, 1)
    }
}

/// Linear range remapper.
pub struct ScalerWidget<S> {
    pub id: NodeId,
    pub shared: S,
}

impl<S> ScalerWidget<S> {
    pub fn new(id: NodeId, shared: S) -> (r: Self)
        ensures
            r.id == id,
            r.shared == shared,
    {
        ScalerWidget { id, shared }
    }

    pub fn node_id(&self) -> (r: NodeId)
        ensures
            r == self.id,
    {
        self.id
    }

    /// The node keeps its automatic size on the canvas.
    pub fn resizable(&self) -> (r: bool)
        ensures
            r == false,
    {
        false
    }

    pub fn type_label(&self) -> (r: &'static str)
        ensures
            r@ == "Scaler"@,
    {
        "Scaler"
    }

    pub fn description(&self) -> (r: &'static str)
        ensures
            r@ == SCALER_DESCRIPTION@,
    {
        SCALER_DESCRIPTION
    }

    pub fn ui_inputs(&self) -> (r: Vec<UiPortDef>)
        ensures
            port_views(r@) == seq![
                plain_port("in"@, PortType::Any),
                plain_port("min"@, PortType::Untyped),
                plain_port("max"@, PortType::Untyped),
            ],
    {
        ports3(
            UiPortDef::plain("in", PortType::Any),
            UiPortDef::plain("min", PortType::Untyped),
            UiPortDef::plain("max", PortType::Untyped),
        )
    }

    pub fn ui_outputs(&self) -> (r: Vec<UiPortDef>)
        ensures
            port_views(r@) == seq![plain_port("out"@, PortType::Untyped)],
    {
        ports1(UiPortDef::plain("out", PortType::Untyped))
    }

    pub fn shared_state(&self) -> (r: &S)
        ensures
            *r == self.shared,
    {
        &self.shared
    }

    /// "In Min" (param 0) is driven by input 1 and "In Max" (param 1) by input 2.
    pub fn overridden_param_indices(&self, inputs_connected: &[bool]) -> (r: Vec<usize>)
        ensures
            r@ == overridden(inputs_connected@, 1, 2),
    {
        overridden_params(inputs_connected, 1, 2)
    }
}

/// Comparator with hysteresis.
pub struct SchmittTriggerWidget<S> {
    pub id: NodeId,
    pub shared: S,
}

impl<S> SchmittTriggerWidget<S> {
    pub fn new(id: NodeId, shared: S) -> (r: Self)
        ensures
            r.id == id,
            r.shared == shared,
    {
        SchmittTriggerWidget { id, shared }
    }

    pub fn node_id(&self) -> (r: NodeId)
        ensures
            r == self.id,
    {
        self.id
    }

    /// The node keeps its automatic size on the canvas.
    pub fn resizable(&self) -> (r: bool)
        ensures
            r == false,
    {
        false
    }

    pub fn type_label(&self) -> (r: &'static str)
        ensures
            r@ == "Schmitt Trigger"@,
    {
        "Schmitt Trigger"
    }

    pub fn description(&self) -> (r: &'static str)
        ensures
            r@ == SCHMITT_DESCRIPTION@,
    {
        SCHMITT_DESCRIPTION
    }

    pub fn ui_inputs(&self) -> (r: Vec<UiPortDef>)
        ensures
            port_views(r@) == seq![plain_port("in"@, PortType::Untyped)],
    {
        ports1(UiPortDef::plain("in", PortType::Untyped))
    }

    pub fn ui_outputs(&self) -> (r: Vec<UiPortDef>)
        ensures
            port_views(r@) == seq![plain_port("out"@, PortType::Logic)],
    {
        ports1(UiPortDef::plain("out", PortType::Logic))
    }

    pub fn shared_state(&self) -> (r: &S)
        ensures
            *r == self.shared,
    {
        &self.shared
    }
}

/// Pulses when its value input changes.
pub struct ChangeDetectWidget<S> {
    pub id: NodeId,
    pub shared: S,
}

impl<S> ChangeDetectWidget<S> {
    pub fn new(id: NodeId, shared: S) -> (r: Self)
        ensures
            r.id == id,
            r.shared == shared,
    {
        ChangeDetectWidget { id, shared }
    }

    pub fn node_id(&self) -> (r: NodeId)
        ensures
            r == self.id,
    {
        self.id
    }

    /// The node keeps its automatic size on the canvas.
    pub fn resizable(&self) -> (r: bool)
        ensures
            r == false,
    {
        false
    }

    pub fn type_label(&self) -> (r: &'static str)
        ensures
            r@ == "Change Detect"@,
    {
        "Change Detect"
    }

    pub fn title(&self) -> (r: &'static str)
        ensures
            r@ == "Change Detect"@,
    {
        "Change Detect"
    }

    pub fn description(&self) -> (r: &'static str)
        ensures
            r@ == CHANGE_DETECT_DESCRIPTION@,
    {
        CHANGE_DETECT_DESCRIPTION
    }

    pub fn ui_inputs(&self) -> (r: Vec<UiPortDef>)
        ensures
            port_views(r@) == seq![
                plain_port("trigger"@, PortType::Logic),
                plain_port("value"@, PortType::Any),
            ],
    {
        ports2(UiPortDef::plain("trigger", PortType::Logic), UiPortDef::plain("value", PortType::Any))
    }

    pub fn ui_outputs(&self) -> (r: Vec<UiPortDef>)
        ensures
            port_views(r@) == seq![
                plain_port("changed"@, PortType::Logic),
                plain_port("trigger"@, PortType::Logic),
            ],
    {
        ports2(UiPortDef::plain("changed", PortType::Logic), UiPortDef::plain("trigger", PortType::Logic))
    }

    pub fn shared_state(&self) -> (r: &S)
        ensures
            *r == self.shared,
    {
        &self.shared
    }
}

/// Pan and tilt into one position.
pub struct PositionMergeWidget<S> {
    pub id: NodeId,
    pub shared: S,
}

impl<S> PositionMergeWidget<S> {
    pub fn new(id: NodeId, shared: S) -> (r: Self)
        ensures
            r.id == id,
            r.shared == shared,
    {
        PositionMergeWidget { id, shared }
    }

    pub fn node_id(&self) -> (r: NodeId)
        ensures
            r == self.id,
    {
        self.id
    }

    /// The node keeps its automatic size on the canvas.
    pub fn resizable(&self) -> (r: bool)
        ensures
            r == false,
    {
        false
    }

    pub fn type_label(&self) -> (r: &'static str)
        ensures
            r@ == "Position Merge"@,
    {
        "Position Merge"
    }

    pub fn description(&self) -> (r: &'static str)
        ensures
            r@ == POSITION_MERGE_DESCRIPTION@,
    {
        POSITION_MERGE_DESCRIPTION
    }

    pub fn ui_inputs(&self) -> (r: Vec<UiPortDef>)
        ensures
            port_views(r@) == seq![
                plain_port("Pan"@, PortType::Untyped),
                plain_port("Tilt"@, PortType::Untyped),
            ],
    {
        ports2(UiPortDef::plain("Pan", PortType::Untyped), UiPortDef::plain("Tilt", PortType::Untyped))
    }

    pub fn ui_outputs(&self) -> (r: Vec<UiPortDef>)
        ensures
            port_views(r@) == seq![plain_port("position"@, PortType::Position)],
    {
        ports1(UiPortDef::plain("position", PortType::Position))
    }

    pub fn shared_state(&self) -> (r: &S)
        ensures
            *r == self.shared,
    {
        &self.shared
    }
}

/// One position into pan and tilt.
pub struct PositionSplitWidget<S> {
    pub id: NodeId,
    pub shared: S,
}

impl<S> PositionSplitWidget<S> {
    pub fn new(id: NodeId, shared: S) -> (r: Self)
        ensures
            r.id == id,
            r.shared == shared,
    {
        PositionSplitWidget { id, shared }
    }

    pub fn node_id(&self) -> (r: NodeId)
        ensures
            r == self.id,
    {
        self.id
    }

    /// The node keeps its automatic size on the canvas.
    pub fn resizable(&self) -> (r: bool)
        ensures
            r == false,
    {
        false
    }

    pub fn type_label(&self) -> (r: &'static str)
        ensures
            r@ == "Position Split"@,
    {
        "Position Split"
    }

    pub fn description(&self) -> (r: &'static str)
        ensures
            r@ == POSITION_SPLIT_DESCRIPTION@,
    {
        POSITION_SPLIT_DESCRIPTION
    }

    pub fn ui_inputs(&self) -> (r: Vec<UiPortDef>)
        ensures
            port_views(r@) == seq![plain_port("position"@, PortType::Position)],
    {
        ports1(UiPortDef::plain("position", PortType::Position))
    }

    pub fn ui_outputs(&self) -> (r: Vec<UiPortDef>)
        ensures
            port_views(r@) == seq![
                plain_port("Pan"@, PortType::Untyped),
                plain_port("Tilt"@, PortType::Untyped),
            ],
    {
        ports2(UiPortDef::plain("Pan", PortType::Untyped), UiPortDef::plain("Tilt", PortType::Untyped))
    }

    pub fn shared_state(&self) -> (r: &S)
        ensures
            *r == self.shared,
    {
        &self.shared
    }
}

/// A palette and four stop positions into a gradient.
pub struct PaletteToGradientWidget<S> {
    pub id: NodeId,
    pub shared: S,
}

impl<S> PaletteToGradientWidget<S> {
    pub fn new(id: NodeId, shared: S) -> (r: Self)
        ensures
            r.id == id,
            r.shared == shared,
    {
        PaletteToGradientWidget { id, shared }
    }

    pub fn node_id(&self) -> (r: NodeId)
        ensures
            r == self.id,
    {
        self.id
    }

    /// The node can be resized on the canvas.
    pub fn resizable(&self) -> (r: bool)
        ensures
            r == true,
    {
        true
    }

    pub fn type_label(&self) -> (r: &'static str)
        ensures
            r@ == "Palette to Gradient"@,
    {
        "Palette to Gradient"
    }

    pub fn description(&self) -> (r: &'static str)
        ensures
            r@ == PALETTE_TO_GRADIENT_DESCRIPTION@,
    {
        PALETTE_TO_GRADIENT_DESCRIPTION
    }

    pub fn ui_inputs(&self) -> (r: Vec<UiPortDef>)
        ensures
            port_views(r@) == seq![
                plain_port("palette"@, PortType::Palette),
                plain_port("pos1"@, PortType::Untyped),
                plain_port("pos2"@, PortType::Untyped),
                plain_port("pos3"@, PortType::Untyped),
                plain_port("pos4"@, PortType::Untyped),
            ],
    {
        ports5(
            UiPortDef::plain("palette", PortType::Palette),
            UiPortDef::plain("pos1", PortType::Untyped),
            UiPortDef::plain("pos2", PortType::Untyped),
            UiPortDef::plain("pos3", PortType::Untyped),
            UiPortDef::plain("pos4", PortType::Untyped),
        )
    }

    pub fn ui_outputs(&self) -> (r: Vec<UiPortDef>)
        ensures
            port_views(r@) == seq![plain_port("gradient"@, PortType::Gradient)],
    {
        ports1(UiPortDef::plain("gradient", PortType::Gradient))
    }

    pub fn shared_state(&self) -> (r: &S)
        ensures
            *r == self.shared,
    {
        &self.shared
    }

    /// Stop positions 1..4 (params 0..=3) are driven by inputs 1..=4.
    pub fn overridden_param_indices(&self, inputs_connected: &[bool]) -> (r: Vec<usize>)
        ensures
            r@ == overridden(inputs_connected@, 1, 4),
    {
        overridden_params(inputs_connected, 1, 4)
    }
}

} // verus!
