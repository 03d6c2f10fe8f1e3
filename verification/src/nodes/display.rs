//! Display nodes: colour swatch, LED, numeric value and scope.
use vstd::prelude::*;
use crate::ports::{NodeId, PortType, UiPortDef, PortView, Rgb, plain_port, port_views};
use crate::text::{decimal_chars, with_number};
use crate::nodes::{ports1, ports2};

verus! {

/// What the colour display shows; decided by the first typed wire.
#[derive(Clone, Copy, Debug, PartialEq, Eq, Structural)]
pub enum DisplayMode {
    Neutral,
    Palette,
    Color,
    Gradient,
}

/// The display input for a mode.
pub open spec fn display_input(mode: DisplayMode) -> PortView {
    match mode {
        DisplayMode::Palette => plain_port("palette"@, PortType::Palette),
        DisplayMode::Color => plain_port("color"@, PortType::Color),
        DisplayMode::Gradient => plain_port("gradient"@, PortType::Gradient),
        DisplayMode::Neutral => plain_port("?"@, PortType::Any),
    }
}

/// The mode a wire of type `t` selects, if any.
pub open spec fn mode_for_type(t: PortType) -> Option<DisplayMode> {
    if t == PortType::Palette {
        Some(DisplayMode::Palette)
    } else if t == PortType::Color {
        Some(DisplayMode::Color)
    } else if t == PortType::Gradient {
        Some(DisplayMode::Gradient)
    } else {
        None
    }
}

pub const COLOR_DISPLAY_DESCRIPTION: &'static str = "Shows a color swatch, palette (4-color set), or gradient preview. Mode auto-detected from the first connected wire.";

/// Colour, palette or gradient preview.
pub struct ColorDisplayWidget<S> {
    pub id: NodeId,
    pub shared: S,
    pub mode: DisplayMode,
}

impl<S> ColorDisplayWidget<S> {
    pub fn new(id: NodeId, shared: S) -> (r: Self)
        ensures
            r.id == id,
            r.shared == shared,
            r.mode == DisplayMode::Neutral,
    {
        ColorDisplayWidget { id, shared, mode: DisplayMode::Neutral }
    }

    pub fn node_id(&self) -> (r: NodeId)
        ensures
            r == self.id,
    {
        self.id
    }

    /// The node can be resized on the canvas.
    pub fn resizable(&self) -> (r: bool)
        ensures
            r == true,
    {
        true
    }

    pub fn type_label(&self) -> (r: &'static str)
        ensures
            r@ == "Color Display"@,
    {
        "Color Display"
    }

    pub fn title(&self) -> (r: &'static str)
        ensures
            r@ == "Color Display"@,
    {
        "Color Display"
    }

    pub fn description(&self) -> (r: &'static str)
        ensures
            r@ == COLOR_DISPLAY_DESCRIPTION@,
    {
        COLOR_DISPLAY_DESCRIPTION
    }

    pub fn ui_inputs(&self) -> (r: Vec<UiPortDef>)
        ensures
            port_views(r@) == seq![display_input(self.mode)],
    {
        match self.mode {
            DisplayMode::Palette => ports1(UiPortDef::plain("palette", PortType::Palette)),
            DisplayMode::Color => ports1(UiPortDef::plain("color", PortType::Color)),
            DisplayMode::Gradient => ports1(UiPortDef::plain("gradient", PortType::Gradient)),
            DisplayMode::Neutral => ports1(UiPortDef::plain("?", PortType::Any)),
        }
    }

    pub fn ui_outputs(&self) -> (r: Vec<UiPortDef>)
        ensures
            r@.len() == 0,
    {
        Vec::new()
    }

    pub fn shared_state(&self) -> (r: &S)
        ensures
            *r == self.shared,
    {
        &self.shared
    }

    /// A neutral display takes its mode from a Palette, Color or Gradient
    /// wire; returns the mode to announce when it changed.
    pub fn on_ui_connect(&mut self, input_port: usize, source_type: PortType) -> (r: Option<
        DisplayMode,
    >)
        ensures
            final(self).shared == old(self).shared,
            final(self).id == old(self).id,
            final(self).shared == old(self).shared,
            old(self).mode == DisplayMode::Neutral ==> r == mode_for_type(source_type),
            old(self).mode != DisplayMode::Neutral ==> r.is_none(),
            final(self).mode == (match r {
                Some(m) => m,
                None => old(self).mode,
            }),
    {
        if self.mode != DisplayMode::Neutral {
            return None;
        }
        let new_mode = match source_type {
            PortType::Palette => DisplayMode::Palette,
            PortType::Color => DisplayMode::Color,
            PortType::Gradient => DisplayMode::Gradient,
            _ => {
                return None;
            },
        };
        self.mode = new_mode;
        Some(new_mode)
    }

    /// Takes over the mode reported by the processing side.
    pub fn sync_mode(&mut self, mode: DisplayMode)
        ensures
            final(self).shared == old(self).shared,
            final(self).mode == mode,
            final(self).id == old(self).id,
            final(self).shared == old(self).shared,
    {
        self.mode = mode;
    }
}

pub const LED_DISPLAY_DESCRIPTION: &'static str = "Shows a value (0..1) as a glowing LED. Name appears above the LED and on parent subgraph nodes.";

pub const VALUE_DISPLAY_DESCRIPTION: &'static str = "Shows a numeric value. Name appears above the value and on parent subgraph nodes.";

/// A value shown as an LED, with an optional name.
pub struct LedDisplayWidget<S> {
    pub id: NodeId,
    pub shared: S,
    pub name: String,
}

impl<S> LedDisplayWidget<S> {
    pub fn new(id: NodeId, shared: S) -> (r: Self)
        ensures
            r.id == id,
            r.shared == shared,
            r.name@ == Seq::<char>::empty(),
    {
        LedDisplayWidget { id, shared, name: String::new() }
    }

    pub fn node_id(&self) -> (r: NodeId)
        ensures
            r == self.id,
    {
        self.id
    }

    /// The node can be resized on the canvas.
    pub fn resizable(&self) -> (r: bool)
        ensures
            r == true,
    {
        true
    }

    pub fn type_label(&self) -> (r: &'static str)
        ensures
            r@ == "LED Display"@,
    {
        "LED Display"
    }

    pub fn title(&self) -> (r: &'static str)
        ensures
            r@ == "LED Display"@,
    {
        "LED Display"
    }

    pub fn description(&self) -> (r: &'static str)
        ensures
            r@ == LED_DISPLAY_DESCRIPTION@,
    {
        LED_DISPLAY_DESCRIPTION
    }

    pub fn ui_inputs(&self) -> (r: Vec<UiPortDef>)
        ensures
            port_views(r@) == seq![plain_port("in"@, PortType::Any)],
    {
        ports1(UiPortDef::plain("in", PortType::Any))
    }

    pub fn ui_outputs(&self) -> (r: Vec<UiPortDef>)
        ensures
            r@.len() == 0,
    {
        Vec::new()
    }

    pub fn shared_state(&self) -> (r: &S)
        ensures
            *r == self.shared,
    {
        &self.shared
    }

    /// Restores the name from saved data, when the data holds one.
    pub fn restore_name(&mut self, name: Option<String>)
        ensures
            final(self).shared == old(self).shared,
            final(self).id == old(self).id,
            final(self).shared == old(self).shared,
            final(self).name@ == (match name {
                Some(n) => n@,
                None => old(self).name@,
            }),
    {
        if let Some(n) = name {
            self.name = n;
        }
    }

    /// The inspector edited the name; returns the name to push as config.
    pub fn rename(&mut self, name: String) -> (r: String)
        ensures
            final(self).shared == old(self).shared,
            final(self).name@ == name@,
            r@ == name@,
            final(self).id == old(self).id,
            final(self).shared == old(self).shared,
    {
        self.name = name.clone();
        name
    }
}

/// A numeric readout with an optional name.
pub struct ValueDisplayWidget<S> {
    pub id: NodeId,
    pub shared: S,
    pub name: String,
}

impl<S> ValueDisplayWidget<S> {
    pub fn new(id: NodeId, shared: S) -> (r: Self)
        ensures
            r.id == id,
            r.shared == shared,
            r.name@ == Seq::<char>::empty(),
    {
        ValueDisplayWidget { id, shared, name: String::new() }
    }

    pub fn node_id(&self) -> (r: NodeId)
        ensures
            r == self.id,
    {
        self.id
    }

    /// The node can be resized on the canvas.
    pub fn resizable(&self) -> (r: bool)
        ensures
            r == true,
    {
        true
    }

    pub fn type_label(&self) -> (r: &'static str)
        ensures
            r@ == "Value Display"@,
    {
        "Value Display"
    }

    pub fn description(&self) -> (r: &'static str)
        ensures
            r@ == VALUE_DISPLAY_DESCRIPTION@,
    {
        VALUE_DISPLAY_DESCRIPTION
    }

    pub fn ui_inputs(&self) -> (r: Vec<UiPortDef>)
        ensures
            port_views(r@) == seq![plain_port("in"@, PortType::Any)],
    {
        ports1(UiPortDef::plain("in", PortType::Any))
    }

    pub fn ui_outputs(&self) -> (r: Vec<UiPortDef>)
        ensures
            r@.len() == 0,
    {
        Vec::new()
    }

    pub fn shared_state(&self) -> (r: &S)
        ensures
            *r == self.shared,
    {
        &self.shared
    }

    pub fn restore_name(&mut self, name: Option<String>)
        ensures
            final(self).shared == old(self).shared,
            final(self).id == old(self).id,
            final(self).shared == old(self).shared,
            final(self).name@ == (match name {
                Some(n) => n@,
                None => old(self).name@,
            }),
    {
        if let Some(n) = name {
            self.name = n;
        }
    }

    pub fn rename(&mut self, name: String) -> (r: String)
        ensures
            final(self).shared == old(self).shared,
            final(self).name@ == name@,
            r@ == name@,
            final(self).id == old(self).id,
            final(self).shared == old(self).shared,
    {
        self.name = name.clone();
        name
    }
}

/// Trace colour of scope channel `i` (0 or 1).
pub open spec fn wave_color(i: int) -> Rgb {
    if i == 0 {
        Rgb { r: 80, g: 240, b: 120 }
    } else {
        Rgb { r: 240, g: 140, b: 80 }
    }
}

/// Scope channel `i` (0 or 1): "in 1"/"in 2", typed and coloured once wired.
pub open spec fn scope_port(i: int, wired: Option<PortType>) -> PortView {
    match wired {
        Some(t) => PortView {
            name: "in "@ + decimal_chars((i + 1) as nat),
            port_type: t,
            fill: Some(wave_color(i)),
            marker: None,
            disabled: false,
        },
        None => plain_port("in "@ + decimal_chars((i + 1) as nat), PortType::Any),
    }
}

fn make_scope_port(i: usize, wired: Option<PortType>) -> (r: UiPortDef)
    requires
        i < 2,
    ensures
        r@ == scope_port(i as int, wired),
{
    let name = with_number("in ", i + 1);
    match wired {
        Some(t) => {
            let fill = if i == 0 {
                Rgb { r: 80, g: 240, b: 120 }
            } else {
                Rgb { r: 240, g: 140, b: 80 }
            };
            UiPortDef::plain_owned(name, t).with_fill(fill)
        },
        None => UiPortDef::plain_owned(name, PortType::Any),
    }
}

/// Two-channel oscilloscope.
pub struct ScopeWidget<S> {
    pub id: NodeId,
    pub shared: S,
    pub ui_inputs: Vec<UiPortDef>,
}

impl<S> ScopeWidget<S> {
    pub open spec fn wf(&self) -> bool {
        self.ui_inputs.len() == 2
    }

    pub fn new(id: NodeId, shared: S) -> (r: Self)
        ensures
            r.wf(),
            r.id == id,
            r.shared == shared,
            port_views(r.ui_inputs@) == seq![scope_port(0, None), scope_port(1, None)],
    {
        let ui_inputs = ports2(make_scope_port(0, None), make_scope_port(1, None));
        ScopeWidget { id, shared, ui_inputs }
    }

    pub fn node_id(&self) -> (r: NodeId)
        ensures
            r == self.id,
    {
        self.id
    }

    /// The node can be resized on the canvas.
    pub fn resizable(&self) -> (r: bool)
        ensures
            r == true,
    {
        true
    }

    pub fn type_label(&self) -> (r: &'static str)
        ensures
            r@ == "Scope"@,
    {
        "Scope"
    }

    pub fn title(&self) -> (r: &'static str)
        ensures
            r@ == "Scope"@,
    {
        "Scope"
    }

    pub fn ui_inputs(&self) -> (r: Vec<UiPortDef>)
        requires
            self.wf(),
        ensures
            port_views(r@) == port_views(self.ui_inputs@),
    {
        let a = self.port_copy(0);
        let b = self.port_copy(1);
        let r = ports2(a, b);
        proof {
            assert(port_views(self.ui_inputs@) =~= seq![self.ui_inputs@[0]@, self.ui_inputs@[1]@]);
        }
        r
    }

    fn port_copy(&self, i: usize) -> (r: UiPortDef)
        requires
            i < self.ui_inputs.len(),
        ensures
            r@ == self.ui_inputs@[i as int]@,
    {
        let p = &self.ui_inputs[i];
        let marker = match &p.marker {
            Some(m) => Some(m.clone()),
            None => None,
        };
        UiPortDef { def: p.def.duplicate(), fill: p.fill, marker, disabled: p.disabled }
    }

    pub fn ui_outputs(&self) -> (r: Vec<UiPortDef>)
        ensures
            r@.len() == 0,
    {
        Vec::new()
    }

    pub fn shared_state(&self) -> (r: &S)
        ensures
            *r == self.shared,
    {
        &self.shared
    }

    /// A wire on channel 0 or 1 types and colours that channel.
    pub fn on_ui_connect(&mut self, input_port: usize, source_type: PortType)
        requires
            old(self).wf(),
        ensures
            final(self).shared == old(self).shared,
            final(self).wf(),
            final(self).id == old(self).id,
            final(self).shared == old(self).shared,
            input_port < 2 ==> port_views(final(self).ui_inputs@) == port_views(
                old(self).ui_inputs@,
            ).update(input_port as int, scope_port(input_port as int, Some(source_type))),
            input_port >= 2 ==> port_views(final(self).ui_inputs@) == port_views(old(self).ui_inputs@),
    {
        if input_port < 2 {
            let p = make_scope_port(input_port, Some(source_type));
            let ghost prev = self.ui_inputs@;
            self.ui_inputs.set(input_port, p);
            proof {
                assert(port_views(self.ui_inputs@) =~= port_views(prev).update(
                    input_port as int,
                    p@,
                ));
            }
        }
    }

    /// Unwiring a channel returns it to "in N" of type Any, uncoloured.
    pub fn on_ui_disconnect(&mut self, input_port: usize)
        requires
            old(self).wf(),
        ensures
            final(self).shared == old(self).shared,
            final(self).wf(),
            final(self).id == old(self).id,
            final(self).shared == old(self).shared,
            input_port < 2 ==> port_views(final(self).ui_inputs@) == port_views(
                old(self).ui_inputs@,
            ).update(input_port as int, scope_port(input_port as int, None)),
            input_port >= 2 ==> port_views(final(self).ui_inputs@) == port_views(old(self).ui_inputs@),
    {
        if input_port < 2 {
            let p = make_scope_port(input_port, None);
            let ghost prev = self.ui_inputs@;
            self.ui_inputs.set(input_port, p);
            proof {
                assert(port_views(self.ui_inputs@) =~= port_views(prev).update(
                    input_port as int,
                    p@,
                ));
            }
        }
    }
}

} // verus!
