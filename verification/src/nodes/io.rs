//! Input/output nodes: the internal clock, DMX interface and fixture
//! nodes, and the nodes bound to hardware controllers.
use vstd::prelude::*;
use crate::ports::{NodeId, PortType, PortDef, UiPortDef, PortView, plain_port, port_views, def_views, ui_ports_from_defs};
use crate::text::{decimal_chars, decimal, with_number};
use crate::nodes::{names_view, typed_names, ports_from_names, prefixed_names};

verus! {

pub const INTERNAL_CLOCK_DESCRIPTION: &'static str = "Standalone BPM clock with manual transport; outputs beat, play state, and phase.";

pub open spec fn clock_inputs() -> Seq<PortView> {
    seq![
        plain_port("play/stop"@, PortType::Logic),
        plain_port("bpm"@, PortType::Untyped),
        plain_port("set bpm"@, PortType::Logic),
        plain_port("reset"@, PortType::Logic),
    ]
}

pub open spec fn clock_outputs() -> Seq<PortView> {
    seq![
        plain_port("beat"@, PortType::Logic),
        plain_port("play"@, PortType::Logic),
        plain_port("phase"@, PortType::Phase),
    ]
}

/// Standalone BPM clock.
pub struct InternalClockWidget<S> {
    pub id: NodeId,
    pub shared: S,
    pub inputs: Vec<PortDef>,
    pub outputs: Vec<PortDef>,
}

impl<S> InternalClockWidget<S> {
    pub fn new(id: NodeId, shared: S) -> (r: Self)
        ensures
            r.id == id,
            r.shared == shared,
            def_views(r.inputs@) == clock_inputs(),
            def_views(r.outputs@) == clock_outputs(),
    {
        let mut inputs: Vec<PortDef> = Vec::new();
        inputs.push(PortDef::new("play/stop", PortType::Logic));
        inputs.push(PortDef::new("bpm", PortType::Untyped));
        inputs.push(PortDef::new("set bpm", PortType::Logic));
        inputs.push(PortDef::new("reset", PortType::Logic));
        let mut outputs: Vec<PortDef> = Vec::new();
        outputs.push(PortDef::new("beat", PortType::Logic));
        outputs.push(PortDef::new("play", PortType::Logic));
        outputs.push(PortDef::new("phase", PortType::Phase));
        proof {
            assert(def_views(inputs@) =~= clock_inputs());
            assert(def_views(outputs@) =~= clock_outputs());
        }
        InternalClockWidget { id, shared, inputs, outputs }
    }

    pub fn node_id(&self) -> (r: NodeId)
        ensures
            r == self.id,
    {
        self.id
    }

    /// The node keeps its automatic size on the canvas.
    pub fn resizable(&self) -> (r: bool)
        ensures
            r == false,
    {
        false
    }

    pub fn type_label(&self) -> (r: &'static str)
        ensures
            r@ == "Internal Clock"@,
    {
        "Internal Clock"
    }

    pub fn title(&self) -> (r: &'static str)
        ensures
            r@ == "Internal Clock"@,
    {
        "Internal Clock"
    }

    pub fn description(&self) -> (r: &'static str)
        ensures
            r@ == INTERNAL_CLOCK_DESCRIPTION@,
    {
        INTERNAL_CLOCK_DESCRIPTION
    }

    pub fn ui_inputs(&self) -> (r: Vec<UiPortDef>)
        ensures
            port_views(r@) == def_views(self.inputs@),
    {
        ui_ports_from_defs(&self.inputs)
    }

    pub fn ui_outputs(&self) -> (r: Vec<UiPortDef>)
        ensures
            port_views(r@) == def_views(self.outputs@),
    {
        ui_ports_from_defs(&self.outputs)
    }

    pub fn shared_state(&self) -> (r: &S)
        ensures
            *r == self.shared,
    {
        &self.shared
    }
}

/// A DMX output interface; configured through its editor window.
pub struct InterfaceWidget<S> {
    pub id: NodeId,
    pub shared: S,
    pub editor_open: bool,
}

impl<S> InterfaceWidget<S> {
    pub fn new(id: NodeId, shared: S) -> (r: Self)
        ensures
            r.id == id,
            r.shared == shared,
            !r.editor_open,
    {
        InterfaceWidget { id, shared, editor_open: false }
    }

    pub fn node_id(&self) -> (r: NodeId)
        ensures
            r == self.id,
    {
        self.id
    }

    /// The node keeps its automatic size on the canvas.
    pub fn resizable(&self) -> (r: bool)
        ensures
            r == false,
    {
        false
    }

    pub fn type_label(&self) -> (r: &'static str)
        ensures
            r@ == "Interface"@,
    {
        "Interface"
    }

    pub fn title(&self) -> (r: &'static str)
        ensures
            r@ == "Interface"@,
    {
        "Interface"
    }

    pub fn ui_inputs(&self) -> (r: Vec<UiPortDef>)
        ensures
            r@.len() == 0,
    {
        Vec::new()
    }

    pub fn ui_outputs(&self) -> (r: Vec<UiPortDef>)
        ensures
            r@.len() == 0,
    {
        Vec::new()
    }

    pub fn shared_state(&self) -> (r: &S)
        ensures
            *r == self.shared,
    {
        &self.shared
    }

    /// The inspector's "Open Editor" button.
    pub fn open_editor(&mut self)
        ensures
            final(self).shared == old(self).shared,
            final(self).editor_open,
            final(self).id == old(self).id,
            final(self).shared == old(self).shared,
    {
        self.editor_open = true;
    }
}

/// Colour model of a fixture colour channel.
#[derive(Clone, Copy, Debug, PartialEq, Eq, Structural)]
pub enum ChannelColorMode {
    Rgb,
    Rgbw,
    Cmy,
    Hs,
}

/// Kind of a fixture channel, as far as its label goes.
#[derive(Clone, Copy, Debug, PartialEq, Eq, Structural)]
pub enum ChannelKindTag {
    Dimmer,
    Color(ChannelColorMode),
    PanTilt { fine: bool },
    Raw,
}

pub open spec fn kind_label_spec(kind: ChannelKindTag) -> Seq<char> {
    match kind {
        ChannelKindTag::Dimmer => "Dimmer"@,
        ChannelKindTag::Color(m) => match m {
            ChannelColorMode::Rgb => "RGB"@,
            ChannelColorMode::Rgbw => "RGBW"@,
            ChannelColorMode::Cmy => "CMY"@,
            ChannelColorMode::Hs => "H/S"@,
        },
        ChannelKindTag::PanTilt { fine } => if fine { "Pan/Tilt 16bit"@ } else { "Pan/Tilt"@ },
        ChannelKindTag::Raw => "Raw"@,
    }
}

/// The label shown beside a channel in the fixture editor.
pub fn kind_label(kind: ChannelKindTag) -> (r: &'static str)
    ensures
        r@ == kind_label_spec(kind),
{
    match kind {
        ChannelKindTag::Dimmer => "Dimmer",
        ChannelKindTag::Color(m) => match m {
            ChannelColorMode::Rgb => "RGB",
            ChannelColorMode::Rgbw => "RGBW",
            ChannelColorMode::Cmy => "CMY",
            ChannelColorMode::Hs => "H/S",
        },
        ChannelKindTag::PanTilt { fine } => if fine { "Pan/Tilt 16bit" } else { "Pan/Tilt" },
        ChannelKindTag::Raw => "Raw",
    }
}

/// The channel kinds the fixture editor can add.
#[derive(Clone, Copy, Debug, PartialEq, Eq, Structural)]
pub enum NewChannel {
    Dimmer,
    Rgb,
    Rgbw,
    PanTilt,
    PanTiltFine,
    Raw,
}

pub open spec fn new_channel_prefix(kind: NewChannel) -> Seq<char> {
    match kind {
        NewChannel::Dimmer => "Dimmer "@,
        NewChannel::Rgb | NewChannel::Rgbw => "Color "@,
        NewChannel::PanTilt | NewChannel::PanTiltFine => "PanTilt "@,
        NewChannel::Raw => "Raw "@,
    }
}

/// Name of a channel added to a fixture that has `count` channels: the
/// kind's prefix and the new channel's 1-based number.
pub fn new_channel_name(kind: NewChannel, count: usize) -> (r: String)
    requires
        count < usize::MAX,
    ensures
        r@ == new_channel_prefix(kind) + decimal_chars((count + 1) as nat),
{
    let prefix = match kind {
        NewChannel::Dimmer => "Dimmer ",
        NewChannel::Rgb | NewChannel::Rgbw => "Color ",
        NewChannel::PanTilt | NewChannel::PanTiltFine => "PanTilt ",
        NewChannel::Raw => "Raw ",
    };
    with_number(prefix, count + 1)
}

/// A lighting fixture; edited through its editor window.
pub struct FixtureWidget<S> {
    pub id: NodeId,
    pub shared: S,
    pub editor_open: bool,
}

impl<S> FixtureWidget<S> {
    pub fn new(id: NodeId, shared: S) -> (r: Self)
        ensures
            r.id == id,
            r.shared == shared,
            !r.editor_open,
    {
        FixtureWidget { id, shared, editor_open: false }
    }

    pub fn node_id(&self) -> (r: NodeId)
        ensures
            r == self.id,
    {
        self.id
    }

    /// The node keeps its automatic size on the canvas.
    pub fn resizable(&self) -> (r: bool)
        ensures
            r == false,
    {
        false
    }

    pub fn type_label(&self) -> (r: &'static str)
        ensures
            r@ == "Fixture"@,
    {
        "Fixture"
    }

    pub fn title(&self) -> (r: &'static str)
        ensures
            r@ == "Fixture"@,
    {
        "Fixture"
    }

    pub fn ui_inputs(&self) -> (r: Vec<UiPortDef>)
        ensures
            r@.len() == 0,
    {
        Vec::new()
    }

    pub fn ui_outputs(&self) -> (r: Vec<UiPortDef>)
        ensures
            r@.len() == 0,
    {
        Vec::new()
    }

    pub fn shared_state(&self) -> (r: &S)
        ensures
            *r == self.shared,
    {
        &self.shared
    }

    pub fn open_editor(&mut self)
        ensures
            final(self).shared == old(self).shared,
            final(self).editor_open,
            final(self).id == old(self).id,
            final(self).shared == old(self).shared,
    {
        self.editor_open = true;
    }
}

/// Which hardware controller a node is bound to, as last reported.
pub struct ControllerBinding {
    /// 0 means unbound.
    pub controller_id: u32,
    pub connected: bool,
    pub controller_name: String,
}

/// How the status line of a controller node reads.
#[derive(Clone, Copy, Debug, PartialEq, Eq, Structural)]
pub enum BindingStatus {
    Unbound,
    Connected,
    Disconnected,
}

impl ControllerBinding {
    pub fn new() -> (r: Self)
        ensures
            r.controller_id == 0,
            !r.connected,
            r.controller_name@ == Seq::<char>::empty(),
    {
        ControllerBinding { controller_id: 0, connected: false, controller_name: String::new() }
    }

    pub open spec fn status_spec(&self) -> BindingStatus {
        if self.controller_id == 0 {
            BindingStatus::Unbound
        } else if self.connected {
            BindingStatus::Connected
        } else {
            BindingStatus::Disconnected
        }
    }

    pub fn status(&self) -> (r: BindingStatus)
        ensures
            r == self.status_spec(),
    {
        if self.controller_id == 0 {
            BindingStatus::Unbound
        } else if self.connected {
            BindingStatus::Connected
        } else {
            BindingStatus::Disconnected
        }
    }

    /// The status line: `unbound_text` when unbound, the controller's name
    /// when connected, else the name followed by " (not connected)".
    pub fn status_text(&self, unbound_text: &str) -> (r: String)
        ensures
            self.status_spec() == BindingStatus::Unbound ==> r@ == unbound_text@,
            self.status_spec() == BindingStatus::Connected ==> r@ == self.controller_name@,
            self.status_spec() == BindingStatus::Disconnected ==> r@ == self.controller_name@
                + " (not connected)"@,
    {
        if self.controller_id == 0 {
            String::from_str(unbound_text)
        } else if self.connected {
            self.controller_name.clone()
        } else {
            let mut s = self.controller_name.clone();
            s.append(" (not connected)");
            s
        }
    }

    /// Takes over the binding reported by the processing side.
    pub fn sync(&mut self, controller_id: u32, name: String, connected: bool)
        ensures
            final(self).controller_id == controller_id,
            final(self).controller_name@ == name@,
            final(self).connected == connected,
    {
        self.controller_id = controller_id;
        self.controller_name = name;
        self.connected = connected;
    }

    /// Restores the bound controller from saved data; the saved number is
    /// truncated to 32 bits.
    pub fn restore(&mut self, saved_id: Option<u64>)
        ensures
            final(self).controller_id == (match saved_id {
                Some(v) => (v % 0x1_0000_0000) as u32,
                None => old(self).controller_id,
            }),
            final(self).connected == old(self).connected,
            final(self).controller_name@ == old(self).controller_name@,
    {
        if let Some(v) = saved_id {
            self.controller_id = (v % 0x1_0000_0000) as u32;
        }
    }

    /// The inspector picked a controller (0 for none); returns the id to
    /// push as config.
    pub fn select(&mut self, controller_id: u32) -> (r: u32)
        ensures
            final(self).controller_id == controller_id,
            r == controller_id,
            final(self).connected == old(self).connected,
            final(self).controller_name@ == old(self).controller_name@,
    {
        self.controller_id = controller_id;
        controller_id
    }
}

/// "pad r{row}c{col}", 1-based.
pub open spec fn pad_name_chars(row: nat, col: nat) -> Seq<char> {
    "pad r"@ + decimal_chars(row + 1) + "c"@ + decimal_chars(col + 1)
}

/// "side {row}", 1-based.
pub open spec fn side_name_chars(row: nat) -> Seq<char> {
    "side "@ + decimal_chars(row + 1)
}

pub fn pad_name(row: u8, col: u8) -> (r: String)
    ensures
        r@ == pad_name_chars(row as nat, col as nat),
{
    let mut s = with_number("pad r", row as usize + 1);
    s.append("c");
    let d = decimal(col as usize + 1);
    s.append(d.as_str());
    s
}

pub fn side_name(row: u8) -> (r: String)
    ensures
        r@ == side_name_chars(row as nat),
{
    with_number("side ", row as usize + 1)
}

/// Labels of the eight top buttons of a Launchpad S.
pub open spec fn top_labels() -> Seq<Seq<char>> {
    seq!["Up"@, "Down"@, "Left"@, "Right"@, "Session"@, "User 1"@, "User 2"@, "Mixer"@]
}

fn top_label_strings() -> (r: Vec<String>)
    ensures
        names_view(r@) == top_labels(),
{
    let mut v: Vec<String> = Vec::new();
    v.push(String::from_str("Up"));
    v.push(String::from_str("Down"));
    v.push(String::from_str("Left"));
    v.push(String::from_str("Right"));
    v.push(String::from_str("Session"));
    v.push(String::from_str("User 1"));
    v.push(String::from_str("User 2"));
    v.push(String::from_str("Mixer"));
    proof {
        assert(names_view(v@) =~= top_labels());
    }
    v
}

/// The 64 grid pads (row by row), then the 8 side buttons.
pub open spec fn grid_and_side_names() -> Seq<Seq<char>> {
    Seq::new(64, |k: int| pad_name_chars((k / 8) as nat, (k % 8) as nat)) + Seq::new(
        8,
        |k: int| side_name_chars(k as nat),
    )
}

fn grid_and_side_strings() -> (r: Vec<String>)
    ensures
        names_view(r@) == grid_and_side_names(),
{
    let mut v: Vec<String> = Vec::new();
    let mut k: u8 = 0;
    while k < 64
        invariant
            k <= 64,
            names_view(v@) == Seq::new(k as nat, |j: int| pad_name_chars((j / 8) as nat, (j % 8) as nat)),
        decreases 64 - k,
    {
        let s = pad_name(k / 8, k % 8);
        let ghost prev = v@;
        v.push(s);
        proof {
            assert(names_view(v@) =~= names_view(prev).push(s@));
            assert(names_view(v@) =~= Seq::new(
                (k + 1) as nat,
                |j: int| pad_name_chars((j / 8) as nat, (j % 8) as nat),
            ));
        }
        k += 1;
    }
    let mut r: u8 = 0;
    while r < 8
        invariant
            r <= 8,
            names_view(v@) == Seq::new(64, |j: int| pad_name_chars((j / 8) as nat, (j % 8) as nat))
                + Seq::new(r as nat, |j: int| side_name_chars(j as nat)),
        decreases 8 - r,
    {
        let s = side_name(r);
        let ghost prev = v@;
        v.push(s);
        proof {
            assert(names_view(v@) =~= names_view(prev).push(s@));
            assert(names_view(v@) =~= Seq::new(
                64,
                |j: int| pad_name_chars((j / 8) as nat, (j % 8) as nat),
            ) + Seq::new((r + 1) as nat, |j: int| side_name_chars(j as nat)));
        }
        r += 1;
    }
    v
}

/// The controls of a Launchpad S: 64 pads, 8 side and 8 top buttons.
/// LED inputs are named with `led_prefix`; top buttons additionally
/// with `top_prefix`.
pub open spec fn launchpad_controls(led_prefix: Seq<char>, top_prefix: Seq<char>) -> Seq<Seq<char>> {
    grid_and_side_names().map_values(|n: Seq<char>| led_prefix + n) + top_labels().map_values(
        |n: Seq<char>| top_prefix + n,
    )
}

pub const LAUNCHPAD_DESCRIPTION: &'static str = "Novation Launchpad S dedicated node. 64 grid pads (velocity-sensitive) + 8 side buttons + 8 top mode buttons each expose an output and an LED-feedback input. LED inputs currently drive red brightness.";

/// Novation Launchpad S. `C` is the shared list of configured controllers.
pub struct LaunchpadWidget<C, S> {
    pub id: NodeId,
    pub shared: S,
    pub controllers: C,
    pub binding: ControllerBinding,
}

impl<C, S> LaunchpadWidget<C, S> {
    pub fn new(id: NodeId, shared: S, controllers: C) -> (r: Self)
        ensures
            r.id == id,
            r.shared == shared,
            r.controllers == controllers,
            r.binding.controller_id == 0,
            !r.binding.connected,
            r.binding.controller_name@ == Seq::<char>::empty(),
    {
        LaunchpadWidget { id, shared, controllers, binding: ControllerBinding::new() }
    }

    pub fn node_id(&self) -> (r: NodeId)
        ensures
            r == self.id,
    {
        self.id
    }

    /// The node can be resized on the canvas.
    pub fn resizable(&self) -> (r: bool)
        ensures
            r == true,
    {
        true
    }

    pub fn type_label(&self) -> (r: &'static str)
        ensures
            r@ == "Launchpad S"@,
    {
        "Launchpad S"
    }

    pub fn description(&self) -> (r: &'static str)
        ensures
            r@ == LAUNCHPAD_DESCRIPTION@,
    {
        LAUNCHPAD_DESCRIPTION
    }

    /// One LED input per control: "LED pad r1c1".., "LED side 1"..,
    /// "LED top Up"..; all untyped.
    pub fn ui_inputs(&self) -> (r: Vec<UiPortDef>)
        ensures
            port_views(r@) == typed_names(launchpad_controls("LED "@, "LED top "@), PortType::Untyped),
    {
        let base = grid_and_side_strings();
        let mut names = prefixed_names("LED ", &base);
        let tops = top_label_strings();
        let mut top_names = prefixed_names("LED top ", &tops);
        let ghost a = names@;
        let ghost b = top_names@;
        names.append(&mut top_names);
        proof {
            assert(names_view(names@) =~= names_view(a) + names_view(b));
        }
        ports_from_names(&names, PortType::Untyped)
    }

    /// "any change" (logic), then one untyped output per control.
    pub fn ui_outputs(&self) -> (r: Vec<UiPortDef>)
        ensures
            port_views(r@) == seq![plain_port("any change"@, PortType::Logic)] + typed_names(
                launchpad_controls(""@, "top "@),
                PortType::Untyped,
            ),
    {
        let base = grid_and_side_strings();
        let mut names = prefixed_names("", &base);
        let tops = top_label_strings();
        let mut top_names = prefixed_names("top ", &tops);
        let ghost a = names@;
        let ghost b = top_names@;
        names.append(&mut top_names);
        proof {
            assert(names_view(names@) =~= names_view(a) + names_view(b));
        }
        let mut v: Vec<UiPortDef> = Vec::new();
        v.push(UiPortDef::plain("any change", PortType::Logic));
        let mut rest = ports_from_names(&names, PortType::Untyped);
        let ghost first = v@;
        let ghost tail = rest@;
        v.append(&mut rest);
        proof {
            assert(port_views(v@) =~= port_views(first) + port_views(tail));
            assert(port_views(first) =~= seq![plain_port("any change"@, PortType::Logic)]);
        }
        v
    }

    pub fn shared_state(&self) -> (r: &S)
        ensures
            *r == self.shared,
    {
        &self.shared
    }
}

/// Fixed feedback inputs of a Push 1 node, before the named buttons.
pub open spec fn push1_fixed_inputs() -> Seq<PortView> {
    seq![
        plain_port("set pad trig"@, PortType::Logic),
        plain_port("set pad x"@, PortType::Untyped),
        plain_port("set pad y"@, PortType::Untyped),
        plain_port("set pad color"@, PortType::Untyped),
        plain_port("set btn top trig"@, PortType::Logic),
        plain_port("set btn top col"@, PortType::Untyped),
        plain_port("set btn top color"@, PortType::Untyped),
        plain_port("set btn bot trig"@, PortType::Logic),
        plain_port("set btn bot col"@, PortType::Untyped),
        plain_port("set btn bot color"@, PortType::Untyped),
    ]
}

/// Fixed outputs of a Push 1 node, before the named buttons.
pub open spec fn push1_fixed_outputs() -> Seq<PortView> {
    seq![
        plain_port("pad trig"@, PortType::Logic),
        plain_port("pad x"@, PortType::Untyped),
        plain_port("pad y"@, PortType::Untyped),
        plain_port("pad vel"@, PortType::Untyped),
        plain_port("btn top trig"@, PortType::Logic),
        plain_port("btn top col"@, PortType::Untyped),
        plain_port("btn top val"@, PortType::Logic),
        plain_port("btn bot trig"@, PortType::Logic),
        plain_port("btn bot col"@, PortType::Untyped),
        plain_port("btn bot val"@, PortType::Logic),
        plain_port("enc trig"@, PortType::Logic),
        plain_port("enc idx"@, PortType::Untyped),
        plain_port("enc val"@, PortType::Untyped),
        plain_port("slider"@, PortType::Untyped),
    ]
}

fn push_port(v: &mut Vec<UiPortDef>, name: &str, t: PortType)
    ensures
        port_views(final(v)@) == port_views(old(v)@).push(plain_port(name@, t)),
{
    let p = UiPortDef::plain(name, t);
    let ghost prev = v@;
    v.push(p);
    proof {
        assert(port_views(v@) =~= port_views(prev).push(p@));
    }
}

fn append_ports(v: &mut Vec<UiPortDef>, mut more: Vec<UiPortDef>)
    ensures
        port_views(final(v)@) == port_views(old(v)@) + port_views(more@),
{
    let ghost a = v@;
    let ghost b = more@;
    v.append(&mut more);
    proof {
        assert(port_views(v@) =~= port_views(a) + port_views(b));
    }
}

pub const PUSH1_DESCRIPTION: &'static str = "Ableton Push 1 dedicated node. Groups the device's controls into (trigger, address, value) channels — e.g. one `pad trig` pulse per pad event with x/y/velocity describing which pad. Feedback inputs let you light pad / button LEDs by pulsing `set pad trig` with the latched coords and color.";

/// The Push 1's named buttons, each with an LED input and an output.
pub open spec fn push1_named() -> Seq<Seq<char>> {
    seq![
        "Play"@, "Record"@, "Stop"@, "Shift"@, "Select"@, "Up"@, "Down"@, "Left"@, "Right"@, "Octave Up"@,
        "Octave Down"@,
    ]
}

pub fn push1_named_strings() -> (r: Vec<String>)
    ensures
        names_view(r@) == push1_named(),
{
    let mut v: Vec<String> = Vec::new();
    v.push(String::from_str("Play"));
    v.push(String::from_str("Record"));
    v.push(String::from_str("Stop"));
    v.push(String::from_str("Shift"));
    v.push(String::from_str("Select"));
    v.push(String::from_str("Up"));
    v.push(String::from_str("Down"));
    v.push(String::from_str("Left"));
    v.push(String::from_str("Right"));
    v.push(String::from_str("Octave Up"));
    v.push(String::from_str("Octave Down"));
    proof {
        assert(names_view(v@) =~= push1_named());
    }
    v
}

/// Ableton Push 1.
pub struct Push1Widget<C, S> {
    pub id: NodeId,
    pub shared: S,
    pub controllers: C,
    pub binding: ControllerBinding,
}

impl<C, S> Push1Widget<C, S> {
    pub fn new(id: NodeId, shared: S, controllers: C) -> (r: Self)
        ensures
            r.id == id,
            r.shared == shared,
            r.controllers == controllers,
            r.binding.controller_id == 0,
            !r.binding.connected,
            r.binding.controller_name@ == Seq::<char>::empty(),
    {
        Push1Widget { id, shared, controllers, binding: ControllerBinding::new() }
    }

    pub fn node_id(&self) -> (r: NodeId)
        ensures
            r == self.id,
    {
        self.id
    }

    /// The node keeps its automatic size on the canvas.
    pub fn resizable(&self) -> (r: bool)
        ensures
            r == false,
    {
        false
    }

    pub fn type_label(&self) -> (r: &'static str)
        ensures
            r@ == "Push 1"@,
    {
        "Push 1"
    }

    pub fn title(&self) -> (r: &'static str)
        ensures
            r@ == "Push 1"@,
    {
        "Push 1"
    }

    pub fn description(&self) -> (r: &'static str)
        ensures
            r@ == PUSH1_DESCRIPTION@,
    {
        PUSH1_DESCRIPTION
    }

    /// The fixed feedback inputs, then one logic input per named button.
    pub fn ui_inputs(&self) -> (r: Vec<UiPortDef>)
        ensures
            port_views(r@) == push1_fixed_inputs() + typed_names(push1_named(), PortType::Logic),
    {
        let named = push1_named_strings();
        let mut v: Vec<UiPortDef> = Vec::new();
        push_port(&mut v, "set pad trig", PortType::Logic);
        push_port(&mut v, "set pad x", PortType::Untyped);
        push_port(&mut v, "set pad y", PortType::Untyped);
        push_port(&mut v, "set pad color", PortType::Untyped);
        push_port(&mut v, "set btn top trig", PortType::Logic);
        push_port(&mut v, "set btn top col", PortType::Untyped);
        push_port(&mut v, "set btn top color", PortType::Untyped);
        push_port(&mut v, "set btn bot trig", PortType::Logic);
        push_port(&mut v, "set btn bot col", PortType::Untyped);
        push_port(&mut v, "set btn bot color", PortType::Untyped);
        proof {
            assert(port_views(v@) =~= push1_fixed_inputs());
        }
        append_ports(&mut v, ports_from_names(&named, PortType::Logic));
        v
    }

    /// The fixed outputs, then one logic output per named button.
    pub fn ui_outputs(&self) -> (r: Vec<UiPortDef>)
        ensures
            port_views(r@) == push1_fixed_outputs() + typed_names(push1_named(), PortType::Logic),
    {
        let named = push1_named_strings();
        let mut v: Vec<UiPortDef> = Vec::new();
        push_port(&mut v, "pad trig", PortType::Logic);
        push_port(&mut v, "pad x", PortType::Untyped);
        push_port(&mut v, "pad y", PortType::Untyped);
        push_port(&mut v, "pad vel", PortType::Untyped);
        push_port(&mut v, "btn top trig", PortType::Logic);
        push_port(&mut v, "btn top col", PortType::Untyped);
        push_port(&mut v, "btn top val", PortType::Logic);
        push_port(&mut v, "btn bot trig", PortType::Logic);
        push_port(&mut v, "btn bot col", PortType::Untyped);
        push_port(&mut v, "btn bot val", PortType::Logic);
        push_port(&mut v, "enc trig", PortType::Logic);
        push_port(&mut v, "enc idx", PortType::Untyped);
        push_port(&mut v, "enc val", PortType::Untyped);
        push_port(&mut v, "slider", PortType::Untyped);
        proof {
            assert(port_views(v@) =~= push1_fixed_outputs());
        }
        append_ports(&mut v, ports_from_names(&named, PortType::Logic));
        v
    }

    pub fn shared_state(&self) -> (r: &S)
        ensures
            *r == self.shared,
    {
        &self.shared
    }
}

pub const X1_DESCRIPTION: &'static str = "Native Instruments Kontrol X1 dedicated node. Each physical button, encoder, and pot gets its own output port; each button also has an LED input port, so wiring any 0..1 signal into it sets that LED's brightness.";

/// Native Instruments Kontrol X1.
pub struct X1Widget<C, S> {
    pub id: NodeId,
    pub shared: S,
    pub controllers: C,
    pub binding: ControllerBinding,
}

impl<C, S> X1Widget<C, S> {
    pub fn new(id: NodeId, shared: S, controllers: C) -> (r: Self)
        ensures
            r.id == id,
            r.shared == shared,
            r.controllers == controllers,
            r.binding.controller_id == 0,
            !r.binding.connected,
            r.binding.controller_name@ == Seq::<char>::empty(),
    {
        X1Widget { id, shared, controllers, binding: ControllerBinding::new() }
    }

    pub fn node_id(&self) -> (r: NodeId)
        ensures
            r == self.id,
    {
        self.id
    }

    /// The node can be resized on the canvas.
    pub fn resizable(&self) -> (r: bool)
        ensures
            r == true,
    {
        true
    }

    pub fn type_label(&self) -> (r: &'static str)
        ensures
            r@ == "X1"@,
    {
        "X1"
    }

    pub fn description(&self) -> (r: &'static str)
        ensures
            r@ == X1_DESCRIPTION@,
    {
        X1_DESCRIPTION
    }

    /// One untyped "LED {button}" input per button that has an LED.
    pub fn ui_inputs(&self, led_buttons: &Vec<String>) -> (r: Vec<UiPortDef>)
        ensures
            port_views(r@) == typed_names(
                names_view(led_buttons@).map_values(|n: Seq<char>| "LED "@ + n),
                PortType::Untyped,
            ),
    {
        let names = prefixed_names("LED ", led_buttons);
        ports_from_names(&names, PortType::Untyped)
    }

    /// "any change" (logic), then one untyped output per button, encoder
    /// and pot, in that order.
    pub fn ui_outputs(&self, buttons: &Vec<String>, encoders: &Vec<String>, pots: &Vec<String>) -> (r:
        Vec<UiPortDef>)
        ensures
            port_views(r@) == seq![plain_port("any change"@, PortType::Logic)] + typed_names(
                names_view(buttons@),
                PortType::Untyped,
            ) + typed_names(names_view(encoders@), PortType::Untyped) + typed_names(
                names_view(pots@),
                PortType::Untyped,
            ),
    {
        let mut v: Vec<UiPortDef> = Vec::new();
        push_port(&mut v, "any change", PortType::Logic);
        append_ports(&mut v, ports_from_names(buttons, PortType::Untyped));
        append_ports(&mut v, ports_from_names(encoders, PortType::Untyped));
        append_ports(&mut v, ports_from_names(pots, PortType::Untyped));
        v
    }

    pub fn shared_state(&self) -> (r: &S)
        ensures
            *r == self.shared,
    {
        &self.shared
    }
}

pub const INPUT_CONTROLLER_DESCRIPTION: &'static str = "Outputs the current value of each learned input on the selected controller.";

/// Output port of a learned controller input: logic for buttons and other
/// two-state sources, untyped otherwise.
pub open spec fn learned_port_views(inputs: Seq<(String, bool)>) -> Seq<PortView> {
    inputs.map_values(|e: (String, bool)| plain_port(e.0@, if e.1 { PortType::Logic } else { PortType::Untyped }))
}

/// The line a controller node shows: no controller, a controller without
/// inputs, or how many inputs it has.
pub open spec fn controller_status_chars(controller_id: u32, output_count: nat) -> Seq<char> {
    if controller_id == 0 {
        "No controller selected"@
    } else if output_count == 0 {
        "Controller has no inputs"@
    } else {
        decimal_chars(output_count) + " input(s)"@
    }
}

/// Node that outputs the values of the inputs learned on one controller.
/// `C` is the handle to the controller registry.
pub struct InputControllerWidget<S, C> {
    pub id: NodeId,
    pub shared: S,
    /// 0 means no controller selected.
    pub controller_id: u32,
    /// Names and types of the outputs, mirrored from the processing side.
    pub outputs: Vec<PortDef>,
    pub controllers: C,
}

impl<S, C> InputControllerWidget<S, C> {
    pub fn new(id: NodeId, shared: S, controllers: C) -> (r: Self)
        ensures
            r.id == id,
            r.shared == shared,
            r.controllers == controllers,
            r.controller_id == 0,
            r.outputs@.len() == 0,
    {
        InputControllerWidget { id, shared, controller_id: 0, outputs: Vec::new(), controllers }
    }

    pub fn node_id(&self) -> (r: NodeId)
        ensures
            r == self.id,
    {
        self.id
    }

    /// The node keeps its automatic size on the canvas.
    pub fn resizable(&self) -> (r: bool)
        ensures
            r == false,
    {
        false
    }

    pub fn type_label(&self) -> (r: &'static str)
        ensures
            r@ == "Input Controller"@,
    {
        "Input Controller"
    }

    pub fn title(&self) -> (r: &'static str)
        ensures
            r@ == "Input Controller"@,
    {
        "Input Controller"
    }

    pub fn description(&self) -> (r: &'static str)
        ensures
            r@ == INPUT_CONTROLLER_DESCRIPTION@,
    {
        INPUT_CONTROLLER_DESCRIPTION
    }

    pub fn ui_inputs(&self) -> (r: Vec<UiPortDef>)
        ensures
            r@.len() == 0,
    {
        Vec::new()
    }

    pub fn ui_outputs(&self) -> (r: Vec<UiPortDef>)
        ensures
            port_views(r@) == def_views(self.outputs@),
    {
        ui_ports_from_defs(&self.outputs)
    }

    /// Restores the selected controller from saved data (truncated to 32
    /// bits); returns whether one is selected, that is whether its learned
    /// inputs should be looked up.
    pub fn restore_controller_id(&mut self, saved_id: Option<u64>) -> (selected: bool)
        ensures
            final(self).shared == old(self).shared,
            final(self).controller_id == (match saved_id {
                Some(v) => (v % 0x1_0000_0000) as u32,
                None => old(self).controller_id,
            }),
            selected == (final(self).controller_id != 0),
            final(self).outputs@ == old(self).outputs@,
            final(self).id == old(self).id,
    {
        if let Some(v) = saved_id {
            self.controller_id = (v % 0x1_0000_0000) as u32;
        }
        self.controller_id != 0
    }

    /// Lays the outputs out as the processing side does: one port per
    /// learned input, given as its name and whether its source is two-state.
    pub fn set_learned_outputs(&mut self, inputs: &Vec<(String, bool)>)
        ensures
            final(self).shared == old(self).shared,
            def_views(final(self).outputs@) == learned_port_views(inputs@),
            final(self).controller_id == old(self).controller_id,
            final(self).id == old(self).id,
    {
        let mut v: Vec<PortDef> = Vec::new();
        let mut i: usize = 0;
        while i < inputs.len()
            invariant
                i <= inputs.len(),
                def_views(v@) == learned_port_views(inputs@.take(i as int)),
            decreases inputs.len() - i,
        {
            let t = if inputs[i].1 { PortType::Logic } else { PortType::Untyped };
            let d = PortDef::from_string(inputs[i].0.clone(), t);
            let ghost prev = v@;
            v.push(d);
            proof {
                assert(inputs@.take(i + 1) =~= inputs@.take(i as int).push(inputs@[i as int]));
                assert(def_views(v@) =~= def_views(prev).push(plain_port(d.name@, t)));
                assert(learned_port_views(inputs@.take(i + 1)) =~= learned_port_views(inputs@.take(i as int)).push(
                    plain_port(inputs@[i as int].0@, t)));
            }
            i += 1;
        }
        proof {
            assert(inputs@.take(inputs.len() as int) =~= inputs@);
        }
        self.outputs = v;
    }

    /// Takes over what the processing side reports.
    pub fn sync_from_display(&mut self, controller_id: u32, outputs: Vec<PortDef>)
        ensures
            final(self).shared == old(self).shared,
            final(self).controller_id == controller_id,
            final(self).outputs@ == outputs@,
            final(self).id == old(self).id,
    {
        self.controller_id = controller_id;
        self.outputs = outputs;
    }

    /// The inspector picked a controller (0 for none); returns the id to
    /// push as config.
    pub fn select(&mut self, controller_id: u32) -> (r: u32)
        ensures
            final(self).shared == old(self).shared,
            final(self).controller_id == controller_id,
            r == controller_id,
            final(self).outputs@ == old(self).outputs@,
    {
        self.controller_id = controller_id;
        controller_id
    }

    pub fn status_text(&self) -> (r: String)
        ensures
            r@ == controller_status_chars(self.controller_id, self.outputs@.len()),
    {
        if self.controller_id == 0 {
            String::from_str("No controller selected")
        } else if self.outputs.len() == 0 {
            String::from_str("Controller has no inputs")
        } else {
            let mut s = decimal(self.outputs.len());
            s.append(" input(s)");
            s
        }
    }

    pub fn shared_state(&self) -> (r: &S)
        ensures
            *r == self.shared,
    {
        &self.shared
    }
}

} // verus!
