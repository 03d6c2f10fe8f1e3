use lightbeat::nodes::io::{
    kind_label, new_channel_name, pad_name, side_name, BindingStatus, ChannelColorMode,
    ChannelKindTag, ControllerBinding, FixtureWidget, InterfaceWidget, InternalClockWidget,
    InputControllerWidget, LaunchpadWidget, NewChannel, Push1Widget, X1Widget,
};
use lightbeat::nodes::meta::{defs_from_ports, GraphInputWidget, GraphOutputWidget, SubgraphWidget, UNTYPED_IDX};
use lightbeat::nodes::portal::{
    BoundStatus, InputPortalRxWidget, InputPortalTxWidget, OutputPortalRxWidget, OutputPortalTxWidget,
};
use lightbeat::nodes::{display_title, name_for_id, Accent};
use lightbeat::graph::{BRIDGE_IN_RAW, BRIDGE_OUT_RAW};
use lightbeat::ports::{NodeId, PortDef, PortType, UiPortDef};
use lightbeat::subgraph::SubgraphPortDef;

fn names(ports: &[UiPortDef]) -> Vec<String> {
    ports.iter().map(|p| p.def.name.clone()).collect()
}

fn types(ports: &[UiPortDef]) -> Vec<PortType> {
    ports.iter().map(|p| p.def.port_type).collect()
}

#[test]
fn internal_clock_ports() {
    let w = InternalClockWidget::new(NodeId(3), ());
    assert_eq!(names(&w.ui_inputs()), vec!["play/stop", "bpm", "set bpm", "reset"]);
    assert_eq!(names(&w.ui_outputs()), vec!["beat", "play", "phase"]);
    assert_eq!(types(&w.ui_outputs()), vec![PortType::Logic, PortType::Logic, PortType::Phase]);
    assert_eq!(w.title(), "Internal Clock");
}

#[test]
fn interface_and_fixture_editor_flags() {
    let mut i = InterfaceWidget::new(NodeId(1), ());
    assert!(!i.editor_open);
    i.open_editor();
    assert!(i.editor_open);
    assert!(i.ui_inputs().is_empty() && i.ui_outputs().is_empty());
    let mut f = FixtureWidget::new(NodeId(2), ());
    f.open_editor();
    assert!(f.editor_open);
    assert_eq!(f.type_label(), "Fixture");
}

#[test]
fn fixture_channel_labels_and_names() {
    assert_eq!(kind_label(ChannelKindTag::Dimmer), "Dimmer");
    assert_eq!(kind_label(ChannelKindTag::Color(ChannelColorMode::Hs)), "H/S");
    assert_eq!(kind_label(ChannelKindTag::Color(ChannelColorMode::Rgbw)), "RGBW");
    assert_eq!(kind_label(ChannelKindTag::PanTilt { fine: true }), "Pan/Tilt 16bit");
    assert_eq!(kind_label(ChannelKindTag::PanTilt { fine: false }), "Pan/Tilt");
    assert_eq!(kind_label(ChannelKindTag::Raw), "Raw");
    assert_eq!(new_channel_name(NewChannel::Dimmer, 0), "Dimmer 1");
    assert_eq!(new_channel_name(NewChannel::Rgbw, 2), "Color 3");
    assert_eq!(new_channel_name(NewChannel::PanTiltFine, 9), "PanTilt 10");
    assert_eq!(new_channel_name(NewChannel::Raw, 4), "Raw 5");
}

#[test]
fn controller_binding_status() {
    let mut b = ControllerBinding::new();
    assert_eq!(b.status(), BindingStatus::Unbound);
    assert_eq!(b.status_text("No Push 1 bound"), "No Push 1 bound");
    b.sync(5, "Push A".to_string(), false);
    assert_eq!(b.status(), BindingStatus::Disconnected);
    assert_eq!(b.status_text("x"), "Push A (not connected)");
    b.sync(5, "Push A".to_string(), true);
    assert_eq!(b.status_text("x"), "Push A");
    assert_eq!(b.select(0), 0);
    assert_eq!(b.status(), BindingStatus::Unbound);
    b.restore(Some(0x1_0000_0007));
    assert_eq!(b.controller_id, 7);
    b.restore(None);
    assert_eq!(b.controller_id, 7);
}

#[test]
fn controller_picker_names() {
    let list = vec![(3u32, "A".to_string()), (4, "B".to_string()), (4, "C".to_string())];
    assert_eq!(name_for_id(&list, 4, "(none)"), "B");
    assert_eq!(name_for_id(&list, 9, "(none)"), "(none)");
    assert_eq!(name_for_id(&Vec::<(u32, String)>::new(), 1, "???"), "???");
}

#[test]
fn launchpad_port_layout() {
    assert_eq!(pad_name(0, 0), "pad r1c1");
    assert_eq!(pad_name(7, 2), "pad r8c3");
    assert_eq!(side_name(4), "side 5");
    let w = LaunchpadWidget::new(NodeId(1), (), ());
    let ins = w.ui_inputs();
    assert_eq!(ins.len(), 80);
    assert_eq!(ins[0].def.name, "LED pad r1c1");
    assert_eq!(ins[9].def.name, "LED pad r2c2");
    assert_eq!(ins[63].def.name, "LED pad r8c8");
    assert_eq!(ins[64].def.name, "LED side 1");
    assert_eq!(ins[72].def.name, "LED top Up");
    assert_eq!(ins[79].def.name, "LED top Mixer");
    assert!(types(&ins).iter().all(|t| *t == PortType::Untyped));
    let outs = w.ui_outputs();
    assert_eq!(outs.len(), 81);
    assert_eq!(outs[0].def.name, "any change");
    assert_eq!(outs[0].def.port_type, PortType::Logic);
    assert_eq!(outs[1].def.name, "pad r1c1");
    assert_eq!(outs[65].def.name, "side 1");
    assert_eq!(outs[79].def.name, "top User 2");
}

#[test]
fn push1_ports_with_named_buttons() {
    let w = Push1Widget::new(NodeId(1), (), ());
    let named = ["Play", "Record", "Stop", "Shift", "Select", "Up", "Down", "Left", "Right", "Octave Up", "Octave Down"];
    let ins = w.ui_inputs();
    assert_eq!(ins.len(), 21);
    assert_eq!(ins[0].def.name, "set pad trig");
    assert_eq!(ins[9].def.name, "set btn bot color");
    let outs = w.ui_outputs();
    assert_eq!(outs.len(), 25);
    assert_eq!(outs[0].def.name, "pad trig");
    assert_eq!(outs[13].def.name, "slider");
    for (k, n) in named.iter().enumerate() {
        assert_eq!(ins[10 + k].def.name, *n);
        assert_eq!(ins[10 + k].def.port_type, PortType::Logic);
        assert_eq!(outs[14 + k].def.name, *n);
        assert_eq!(outs[14 + k].def.port_type, PortType::Logic);
    }
    assert!(!w.resizable());
}

#[test]
fn x1_ports_from_controls() {
    let w = X1Widget::new(NodeId(1), (), ());
    let leds = vec!["fx1".to_string()];
    assert_eq!(names(&w.ui_inputs(&leds)), vec!["LED fx1"]);
    let outs = w.ui_outputs(&vec!["fx1".to_string(), "fx2".to_string()], &vec!["enc1".to_string()], &vec!["pot1".to_string()]);
    assert_eq!(names(&outs), vec!["any change", "fx1", "fx2", "enc1", "pot1"]);
    assert_eq!(outs[0].def.port_type, PortType::Logic);
    assert_eq!(outs[4].def.port_type, PortType::Untyped);
}

fn def(name: &str, idx: usize) -> SubgraphPortDef {
    SubgraphPortDef { name: name.to_string(), port_type_idx: idx }
}

#[test]
fn subgraph_widget_ports_and_editing() {
    let mut w = SubgraphWidget::new(NodeId(9), ());
    assert_eq!(w.title(), "");
    w.set_name("Drums".to_string());
    assert_eq!(w.title(), "Drums");
    w.add_input();
    w.add_input();
    w.add_output();
    assert_eq!(w.input_defs[1].name, "in 1");
    assert_eq!(w.input_defs[1].port_type_idx, UNTYPED_IDX);
    assert_eq!(w.output_defs[0].name, "out 0");
    w.input_defs[0].port_type_idx = 0;
    assert_eq!(types(&w.ui_inputs()), vec![PortType::Logic, PortType::Untyped]);
    w.remove_input(0);
    assert_eq!(names(&w.ui_inputs()), vec!["in 1"]);
    w.remove_output(0);
    assert!(w.ui_outputs().is_empty());
    w.request_open();
    assert!(w.wants_open);
    let mut locked = SubgraphWidget::new(NodeId(10), ());
    locked.sync_display(true, 2);
    locked.request_open();
    assert!(!locked.wants_open);
    assert_eq!(locked.inner_display_count, 2);
    assert_eq!(locked.description_text(), "(no description)");
    assert_eq!(locked.path_text(), "(unknown)");
    locked.macro_description = "Strobe chase".to_string();
    locked.macro_path = "macros/strobe.json".to_string();
    assert_eq!(locked.description_text(), "Strobe chase");
    assert_eq!(locked.path_text(), "macros/strobe.json");
}

#[test]
fn bridge_nodes_show_subgraph_ports() {
    let defs = vec![def("kick", 0), def("color", 4), def("past end", 42)];
    let gi = GraphInputWidget::new(defs, ());
    assert_eq!(gi.node_id(), NodeId(BRIDGE_IN_RAW));
    assert!(gi.ui_inputs().is_empty());
    assert_eq!(types(&gi.ui_outputs()), vec![PortType::Logic, PortType::Color, PortType::Untyped]);
    let mut go = GraphOutputWidget::new(vec![def("out", 7)], ());
    assert_eq!(go.node_id(), NodeId(BRIDGE_OUT_RAW));
    assert_eq!(types(&go.ui_inputs()), vec![PortType::Gradient]);
    go.update_ports(vec![]);
    assert!(go.ui_inputs().is_empty());
}

#[test]
fn bridge_defs_round_trip_port_types() {
    let ports = vec![
        UiPortDef::plain("a", PortType::Phase),
        UiPortDef::plain("b", PortType::ColorStack),
        UiPortDef::plain("c", PortType::Any),
    ];
    let defs = defs_from_ports(&ports);
    let gi = GraphInputWidget::new(defs, ());
    assert_eq!(names(&gi.ui_outputs()), names(&ports));
    assert_eq!(types(&gi.ui_outputs()), types(&ports));
}

#[test]
fn defining_portals_edit_ports() {
    let mut tx = OutputPortalTxWidget::new(NodeId(1), ());
    assert_eq!(tx.portal_key(), None);
    tx.ports.name = "lights".to_string();
    assert_eq!(tx.portal_key(), Some("out:lights".to_string()));
    assert_eq!(tx.title(), "lights");
    tx.add_port();
    tx.add_port();
    assert_eq!(names(&tx.ui_inputs()), vec!["in 1", "in 2"]);
    tx.ports.remove_port(0);
    assert_eq!(names(&tx.ui_inputs()), vec!["in 2"]);
    assert!(tx.ui_outputs().is_empty());
    let mut rx = InputPortalRxWidget::new(NodeId(2), ());
    rx.add_port();
    assert_eq!(names(&rx.ui_outputs()), vec!["out 1"]);
    rx.ports.restore(Some("fx".to_string()), None);
    assert_eq!(rx.portal_key(), Some("in:fx".to_string()));
    assert_eq!(names(&rx.ui_outputs()), vec!["out 1"]);
}

#[test]
fn bound_portals_follow_names() {
    let mut rx = OutputPortalRxWidget::new(NodeId(3), (), ());
    assert_eq!(rx.ports.status(), BoundStatus::Unbound);
    assert_eq!(rx.ports.picker_text(), "(none)");
    assert_eq!(rx.ports.bind("lights".to_string()), "lights");
    assert_eq!(rx.ports.status(), BoundStatus::NotConnected);
    assert_eq!(rx.portal_key(), Some("out:lights".to_string()));
    let published = vec![PortDef::new("r", PortType::Untyped), PortDef::new("col", PortType::Color)];
    rx.ports.sync("lights".to_string(), &published, true);
    assert_eq!(rx.ports.status(), BoundStatus::Connected);
    assert_eq!(names(&rx.ui_outputs()), vec!["r", "col"]);
    assert_eq!(types(&rx.ui_outputs()), vec![PortType::Untyped, PortType::Color]);
    let mut tx = InputPortalTxWidget::new(NodeId(4), (), ());
    tx.ports.bind("fx".to_string());
    assert_eq!(tx.portal_key(), Some("in:fx".to_string()));
    assert_eq!(tx.title(), "fx");
    tx.ports.bind(String::new());
    assert_eq!(tx.portal_key(), None);
}

#[test]
fn input_controller_mirrors_learned_inputs() {
    let mut w = InputControllerWidget::new(NodeId(3), (), ());
    assert_eq!(w.type_label(), "Input Controller");
    assert_eq!(w.status_text(), "No controller selected");
    assert!(!w.restore_controller_id(None));
    assert!(w.restore_controller_id(Some(9)));
    assert_eq!(w.status_text(), "Controller has no inputs");
    w.set_learned_outputs(&vec![("Pad 1".to_string(), true), ("Knob".to_string(), false)]);
    let outs = w.ui_outputs();
    assert_eq!(names(&outs), vec!["Pad 1", "Knob"]);
    assert_eq!(types(&outs), vec![PortType::Logic, PortType::Untyped]);
    assert_eq!(w.status_text(), "2 input(s)");
    assert_eq!(w.select(0), 0);
    assert_eq!(w.status_text(), "No controller selected");
    w.sync_from_display(4, vec![PortDef::new("x", PortType::Untyped)]);
    assert_eq!(w.controller_id, 4);
    assert_eq!(w.status_text(), "1 input(s)");
}

#[test]
fn portals_and_subgraphs_carry_accents() {
    let tx = OutputPortalTxWidget::new(NodeId(1), ());
    assert_eq!(tx.accent_color(), Some(Accent::Warning));
    assert_eq!(display_title(tx.title(), tx.type_label()), "Output Portal TX");
    let orx = OutputPortalRxWidget::new(NodeId(2), (), ());
    assert_eq!(orx.accent_color(), Some(Accent::Warning));
    let irx = InputPortalRxWidget::new(NodeId(3), ());
    assert_eq!(irx.accent_color(), Some(Accent::Warning));
    let itx = InputPortalTxWidget::new(NodeId(4), (), ());
    assert_eq!(itx.accent_color(), Some(Accent::Warning));
    let open = SubgraphWidget::new(NodeId(5), ());
    assert_eq!(open.accent_color(), Some(Accent::Subgraph));
    let mut locked = SubgraphWidget::new(NodeId(6), ());
    locked.sync_display(true, 0);
    assert_eq!(locked.accent_color(), Some(Accent::Macro));
}
