use lightbeat::nodes::color::{
    infer_mode_merge, infer_mode_split, make_port_defs, modifier_hint, ColorMergeWidget,
    ColorMode, ColorModifierWidget, ColorSplitWidget, ModifierOp, PaletteMergeWidget,
    PaletteSplitWidget, StackMergeWidget, StackSplitWidget,
};
use lightbeat::nodes::display::{ColorDisplayWidget, DisplayMode, LedDisplayWidget, ScopeWidget, ValueDisplayWidget};
use lightbeat::nodes::math::{
    BipolarWidget, ChangeDetectWidget, CounterWidget, PaletteToGradientWidget, PositionMergeWidget,
    PositionSplitWidget, ScalerWidget, SchmittTriggerWidget,
};
use lightbeat::nodes::mux::{DemultiplexerWidget, MultiplexerWidget, SlotRange};
use lightbeat::nodes::variadic::{
    ConstantWidget, FlipFlopKind, FlipFlopWidget, LogicGateWidget, LogicOp, MathWidget,
    OscillatorWidget, ToggleBankWidget,
};
use lightbeat::nodes::{display_title, overridden_params};
use lightbeat::ports::{NodeId, ParamChange, ParamValue, PortType, Rgb, UiPortDef};

fn names(ports: &[UiPortDef]) -> Vec<String> {
    ports.iter().map(|p| p.def.name.clone()).collect()
}

fn types(ports: &[UiPortDef]) -> Vec<PortType> {
    ports.iter().map(|p| p.def.port_type).collect()
}

#[test]
fn display_title_falls_back_to_type() {
    assert_eq!(display_title("", "Scaler"), "Scaler");
    assert_eq!(display_title("My scaler", "Scaler"), "My scaler");
}

#[test]
fn overridden_params_follow_wired_inputs() {
    assert_eq!(overridden_params(&[false, true, true], 1, 2), vec![0, 1]);
    assert_eq!(overridden_params(&[false, false, true], 1, 2), vec![1]);
    assert_eq!(overridden_params(&[true], 1, 2), Vec::<usize>::new());
    assert_eq!(overridden_params(&[], 1, 4), Vec::<usize>::new());
}

#[test]
fn bipolar_ports_and_overrides() {
    let w = BipolarWidget::new(NodeId(7), ());
    assert_eq!(w.node_id(), NodeId(7));
    assert_eq!(w.type_label(), "Bipolar");
    assert!(w.description().starts_with("Maps a unipolar input (0..1)"));
    assert_eq!(names(&w.ui_inputs()), vec!["in", "range", "center"]);
    assert_eq!(types(&w.ui_inputs()), vec![PortType::Untyped; 3]);
    assert_eq!(names(&w.ui_outputs()), vec!["out"]);
    assert_eq!(w.overridden_param_indices(&[true, false, true]), vec![1]);
}

#[test]
fn counter_hides_max_when_wired() {
    let w = CounterWidget::new(NodeId(1), ());
    assert_eq!(names(&w.ui_inputs()), vec!["trigger", "reset", "max"]);
    assert_eq!(types(&w.ui_inputs()), vec![PortType::Logic, PortType::Logic, PortType::Untyped]);
    assert_eq!(names(&w.ui_outputs()), vec!["count", "wrap"]);
    assert_eq!(w.overridden_param_indices(&[false, false, true]), vec![0]);
    assert_eq!(w.overridden_param_indices(&[true, true, false]), Vec::<usize>::new());
}

#[test]
fn scaler_schmitt_change_detect_ports() {
    let s = ScalerWidget::new(NodeId(1), ());
    assert_eq!(types(&s.ui_inputs()), vec![PortType::Any, PortType::Untyped, PortType::Untyped]);
    assert_eq!(s.overridden_param_indices(&[true, true, true]), vec![0, 1]);
    let t = SchmittTriggerWidget::new(NodeId(2), ());
    assert_eq!(t.type_label(), "Schmitt Trigger");
    assert_eq!(types(&t.ui_outputs()), vec![PortType::Logic]);
    let c = ChangeDetectWidget::new(NodeId(3), ());
    assert_eq!(c.title(), "Change Detect");
    assert_eq!(names(&c.ui_inputs()), vec!["trigger", "value"]);
    assert_eq!(names(&c.ui_outputs()), vec!["changed", "trigger"]);
}

#[test]
fn position_merge_and_split_are_mirrors() {
    let m = PositionMergeWidget::new(NodeId(1), ());
    let s = PositionSplitWidget::new(NodeId(2), ());
    assert_eq!(names(&m.ui_inputs()), names(&s.ui_outputs()));
    assert_eq!(names(&m.ui_outputs()), names(&s.ui_inputs()));
    assert_eq!(types(&m.ui_outputs()), vec![PortType::Position]);
}

#[test]
fn palette_to_gradient_overrides_positions() {
    let w = PaletteToGradientWidget::new(NodeId(1), ());
    assert_eq!(names(&w.ui_inputs()), vec!["palette", "pos1", "pos2", "pos3", "pos4"]);
    assert_eq!(types(&w.ui_outputs()), vec![PortType::Gradient]);
    assert_eq!(w.overridden_param_indices(&[true, false, true, false, true]), vec![1, 3]);
}

#[test]
fn palette_and_stack_split_merge_ports() {
    let ps = PaletteSplitWidget::new(NodeId(1), ());
    assert_eq!(names(&ps.ui_outputs()), vec!["primary", "secondary", "third", "fourth"]);
    assert_eq!(types(&ps.ui_inputs()), vec![PortType::Palette]);
    let pm = PaletteMergeWidget::new(NodeId(2), ());
    assert_eq!(types(&pm.ui_inputs()), vec![PortType::Color; 4]);
    let ss = StackSplitWidget::new(NodeId(3), ());
    assert_eq!(types(&ss.ui_inputs()), vec![PortType::ColorStack]);
    assert_eq!(ss.title(), "Stack Split");
    let sm = StackMergeWidget::new(NodeId(4), ());
    assert_eq!(types(&sm.ui_outputs()), vec![PortType::ColorStack]);
    assert_eq!(names(&sm.ui_outputs()), vec!["palette"]);
}

#[test]
fn color_merge_mode_inference() {
    assert_eq!(infer_mode_merge(ColorMode::Neutral, PortType::Color, true), ColorMode::Palette);
    assert_eq!(infer_mode_merge(ColorMode::Neutral, PortType::Untyped, true), ColorMode::Rgb);
    assert_eq!(infer_mode_merge(ColorMode::Neutral, PortType::Palette, false), ColorMode::Palette);
    assert_eq!(infer_mode_merge(ColorMode::Neutral, PortType::Color, false), ColorMode::Rgb);
    assert_eq!(infer_mode_merge(ColorMode::Neutral, PortType::Logic, false), ColorMode::Neutral);
    assert_eq!(infer_mode_merge(ColorMode::Hsv, PortType::Color, true), ColorMode::Hsv);
}

#[test]
fn color_split_mode_inference() {
    assert_eq!(infer_mode_split(ColorMode::Neutral, PortType::Palette, true), ColorMode::Palette);
    assert_eq!(infer_mode_split(ColorMode::Neutral, PortType::Color, true), ColorMode::Rgb);
    assert_eq!(infer_mode_split(ColorMode::Neutral, PortType::Phase, true), ColorMode::Neutral);
    assert_eq!(infer_mode_split(ColorMode::Neutral, PortType::Color, false), ColorMode::Palette);
    assert_eq!(infer_mode_split(ColorMode::Neutral, PortType::Untyped, false), ColorMode::Rgb);
    assert_eq!(infer_mode_split(ColorMode::Palette, PortType::Untyped, false), ColorMode::Palette);
}

#[test]
fn color_mode_port_defs() {
    let chans = vec!["r".to_string(), "g".to_string(), "b".to_string()];
    let neutral = make_port_defs(ColorMode::Neutral, true, &chans);
    assert_eq!(neutral.len(), 1);
    assert_eq!(neutral[0].name, "?");
    assert_eq!(neutral[0].port_type, PortType::Any);
    let rgb = make_port_defs(ColorMode::Rgb, true, &chans);
    assert_eq!(rgb.iter().map(|d| d.name.clone()).collect::<Vec<_>>(), chans);
    assert!(rgb.iter().all(|d| d.port_type == PortType::Untyped));
    let color_side = make_port_defs(ColorMode::Rgb, false, &chans);
    assert_eq!(color_side.len(), 1);
    assert_eq!(color_side[0].name, "color");
    let pal = make_port_defs(ColorMode::Palette, false, &chans);
    assert!(pal.iter().all(|d| d.port_type == PortType::Color));
    assert_eq!(pal.len(), 3);
}

#[test]
fn color_merge_adopts_mode_once() {
    let mut w = ColorMergeWidget::new(NodeId(1), ());
    let chans = vec!["r".to_string(), "g".to_string(), "b".to_string()];
    assert_eq!(names(&w.ui_inputs(&chans)), vec!["?"]);
    assert_eq!(names(&w.ui_outputs()), vec!["?"]);
    assert_eq!(w.on_ui_output_connect(0, PortType::Logic), None);
    assert_eq!(w.on_ui_connect(0, PortType::Untyped), Some(ColorMode::Rgb));
    assert_eq!(w.mode, ColorMode::Rgb);
    assert_eq!(names(&w.ui_inputs(&chans)), vec!["r", "g", "b"]);
    assert_eq!(types(&w.ui_outputs()), vec![PortType::Color]);
    assert_eq!(w.on_ui_connect(1, PortType::Color), None);
    assert_eq!(w.mode, ColorMode::Rgb);
}

#[test]
fn color_split_palette_ports() {
    let mut w = ColorSplitWidget::new(NodeId(1), ());
    assert_eq!(w.on_ui_connect(0, PortType::Palette), Some(ColorMode::Palette));
    assert_eq!(names(&w.ui_inputs()), vec!["palette"]);
    let chans = vec!["c1".to_string(), "c2".to_string(), "c3".to_string(), "c4".to_string()];
    assert_eq!(types(&w.ui_outputs(&chans)), vec![PortType::Color; 4]);
    assert_eq!(w.on_ui_output_connect(0, PortType::Untyped), None);
}

#[test]
fn color_modifier_type_detection() {
    let mut w = ColorModifierWidget::new(NodeId(1), ());
    assert_eq!(names(&w.ui_inputs()), vec!["?", "amount"]);
    assert_eq!(w.on_ui_connect(1, PortType::Color), None);
    assert_eq!(w.on_ui_connect(0, PortType::Untyped), None);
    assert_eq!(
        w.on_ui_connect(0, PortType::Gradient),
        Some(ParamChange { index: 0, value: ParamValue::Choice(2) })
    );
    assert_eq!(names(&w.ui_outputs()), vec!["gradient"]);
    assert_eq!(types(&w.ui_outputs()), vec![PortType::Gradient]);
    assert_eq!(w.on_ui_output_connect(0, PortType::Color), None);
    let mut v = ColorModifierWidget::new(NodeId(2), ());
    assert_eq!(
        v.on_ui_output_connect(0, PortType::Color),
        Some(ParamChange { index: 0, value: ParamValue::Choice(1) })
    );
    assert_eq!(modifier_hint(ModifierOp::Alpha), "amount = alpha multiplier (Gradient stops only)");
    assert_eq!(modifier_hint(ModifierOp::HueShift), "amount = hue rotation (0..1 = full turn)");
}

fn range() -> SlotRange {
    SlotRange { min: 2, max: 8, default: 4 }
}

#[test]
fn multiplexer_ports_and_typing() {
    let mut w = MultiplexerWidget::new(NodeId(1), (), range());
    assert_eq!(w.status_text(2), "Connect to set type");
    assert_eq!(names(&w.ui_inputs()), vec!["select", "in0", "in1", "in2", "in3"]);
    assert_eq!(types(&w.ui_outputs()), vec![PortType::Any]);
    assert_eq!(w.on_ui_connect(0, PortType::Color), None);
    assert_eq!(w.on_ui_connect(2, PortType::Any), None);
    assert_eq!(w.on_ui_connect(2, PortType::Color), Some(PortType::Color));
    assert_eq!(w.status_text(2), "in2 → out");
    assert_eq!(w.on_ui_output_connect(0, PortType::Logic), None);
    assert_eq!(types(&w.ui_inputs())[1..], vec![PortType::Color; 4][..]);
    w.set_state_from_load(PortType::Phase, 20);
    assert_eq!(w.slots, 8);
    w.set_state_from_load(PortType::Phase, 0);
    assert_eq!(w.slots, 2);
    assert_eq!(names(&w.ui_inputs()), vec!["select", "in0", "in1"]);
}

#[test]
fn demultiplexer_ports_and_inspector() {
    let mut w = DemultiplexerWidget::new(NodeId(1), (), range());
    assert_eq!(names(&w.ui_outputs()), vec!["out0", "out1", "out2", "out3"]);
    assert_eq!(names(&w.ui_inputs()), vec!["select", "in"]);
    assert_eq!(w.status_text(1), "Connect to set type");
    assert_eq!(w.on_ui_output_connect(1, PortType::Gradient), Some(PortType::Gradient));
    assert_eq!(w.status_text(1), "in → out1");
    assert_eq!(w.choose_slots(6), ParamChange { index: 1, value: ParamValue::Int(6) });
    assert_eq!(names(&w.ui_outputs()).len(), 6);
    assert_eq!(w.choose_type(PortType::Logic), PortType::Logic);
    assert_eq!(types(&w.ui_inputs()), vec![PortType::Untyped, PortType::Logic]);
    assert_eq!(range().clamp_slots(5), 5);
}

#[test]
fn math_node_grows_on_plus_port() {
    let mut w = MathWidget::new(NodeId(1), "add", ());
    let ins = w.ui_inputs();
    assert_eq!(names(&ins), vec!["a", "b", "+"]);
    assert_eq!(ins[2].fill, Some(Rgb { r: 80, g: 200, b: 100 }));
    assert_eq!(ins[2].marker.as_deref(), Some("+"));
    assert_eq!(w.output_type(), PortType::Any);
    assert_eq!(w.on_ui_connect(1, PortType::Phase), None);
    assert_eq!(w.output_type(), PortType::Phase);
    assert_eq!(w.on_ui_connect(2, PortType::Untyped), Some(3));
    assert_eq!(names(&w.ui_inputs()), vec!["a", "b", "c", "+"]);
    assert_eq!(types(&w.ui_inputs()), vec![PortType::Any, PortType::Phase, PortType::Untyped, PortType::Any]);
    w.on_ui_disconnect(1);
    assert_eq!(w.output_type(), PortType::Untyped);
    assert_eq!(w.on_ui_connect(9, PortType::Logic), None);
    w.sync_input_count(0);
    assert_eq!(w.input_count, 1);
    assert_eq!(w.real_input_types.len(), 1);
    w.sync_input_count(3);
    assert_eq!(w.real_input_types, vec![None, None, None]);
}

#[test]
fn math_input_names_past_z() {
    let mut w = MathWidget::new(NodeId(1), (), ());
    w.sync_input_count(28);
    let n = names(&w.ui_inputs());
    assert_eq!(n[25], "z");
    assert_eq!(n[26], "in27");
    assert_eq!(n[27], "in28");
    assert_eq!(n[28], "+");
}

#[test]
fn logic_gate_not_is_unary() {
    let mut n = LogicGateWidget::new(NodeId(1), LogicOp::Not, ());
    assert_eq!(names(&n.ui_inputs()), vec!["in"]);
    assert_eq!(n.on_ui_connect(1, PortType::Logic), None);
    n.sync_input_count(5);
    assert_eq!(n.input_count, 1);
    let mut a = LogicGateWidget::new(NodeId(2), LogicOp::And, ());
    assert_eq!(names(&a.ui_inputs()), vec!["a", "b", "+"]);
    assert_eq!(types(&a.ui_inputs()), vec![PortType::Logic; 3]);
    assert_eq!(a.on_ui_connect(2, PortType::Logic), Some(3));
    assert_eq!(a.on_ui_connect(0, PortType::Logic), None);
    assert_eq!(names(&a.ui_inputs()), vec!["a", "b", "c", "+"]);
    a.sync_input_count(0);
    assert_eq!(a.input_count, 1);
}

#[test]
fn flipflop_kinds() {
    let sr = FlipFlopWidget::new(NodeId(1), (), FlipFlopKind::Sr);
    assert_eq!(sr.type_label(), "Flip-Flop");
    assert_eq!(sr.title(), "SR FF");
    assert_eq!(names(&sr.ui_inputs()), vec!["S", "R"]);
    let jk = FlipFlopWidget::new(NodeId(2), (), FlipFlopKind::Jk);
    assert_eq!(jk.type_label(), "JK Flip-Flop");
    assert_eq!(jk.title(), "JK FF");
    assert_eq!(names(&jk.ui_inputs()), vec!["J", "K", "clk"]);
    assert_eq!(names(&jk.ui_outputs()), vec!["Q", "!Q"]);
    assert!(jk.description().starts_with("JK flip-flop"));
}

#[test]
fn toggle_bank_channels() {
    let mut w = ToggleBankWidget::new(NodeId(1), ());
    assert_eq!(names(&w.ui_inputs()), vec!["T1", "T2", "T3", "T4"]);
    assert_eq!(names(&w.ui_outputs()), vec!["O1", "O2", "O3", "O4"]);
    w.restore_channel_count(6, 1, 16);
    assert_eq!(w.n, 6);
    assert_eq!(w.states, vec![false; 6]);
    w.restore_channel_count(100, 1, 16);
    assert_eq!(w.n, 16);
    w.restore_channel_count(0, 1, 16);
    assert_eq!(w.n, 1);
    assert_eq!(w.states.len(), 1);
}

#[test]
fn constant_and_oscillator_ports() {
    let c = ConstantWidget::new(NodeId(1), PortType::Color, ());
    assert!(c.ui_inputs().is_empty());
    assert_eq!(types(&c.ui_outputs()), vec![PortType::Color]);
    let o = OscillatorWidget::new(NodeId(2), "sine", ());
    assert_eq!(names(&o.ui_inputs()), vec!["phase", "amp"]);
    assert_eq!(types(&o.ui_inputs()), vec![PortType::Phase, PortType::Untyped]);
    assert_eq!(names(&o.ui_outputs()), vec!["out"]);
}

#[test]
fn color_display_mode_detection() {
    let mut w = ColorDisplayWidget::new(NodeId(1), ());
    assert_eq!(names(&w.ui_inputs()), vec!["?"]);
    assert_eq!(w.on_ui_connect(0, PortType::Untyped), None);
    assert_eq!(w.on_ui_connect(0, PortType::Gradient), Some(DisplayMode::Gradient));
    assert_eq!(names(&w.ui_inputs()), vec!["gradient"]);
    assert_eq!(w.on_ui_connect(0, PortType::Color), None);
    w.sync_mode(DisplayMode::Palette);
    assert_eq!(types(&w.ui_inputs()), vec![PortType::Palette]);
    assert!(w.ui_outputs().is_empty());
}

#[test]
fn led_and_value_display_names() {
    let mut l = LedDisplayWidget::new(NodeId(1), ());
    assert_eq!(l.name, "");
    l.restore_name(None);
    assert_eq!(l.name, "");
    l.restore_name(Some("kick".to_string()));
    assert_eq!(l.name, "kick");
    assert_eq!(l.rename("snare".to_string()), "snare");
    assert_eq!(l.name, "snare");
    assert_eq!(types(&l.ui_inputs()), vec![PortType::Any]);
    let mut v = ValueDisplayWidget::new(NodeId(2), ());
    assert_eq!(v.rename("level".to_string()), "level");
    assert_eq!(v.type_label(), "Value Display");
}

#[test]
fn scope_channels_adopt_wire_type() {
    let mut s = ScopeWidget::new(NodeId(1), ());
    assert_eq!(names(&s.ui_inputs()), vec!["in 1", "in 2"]);
    assert_eq!(types(&s.ui_inputs()), vec![PortType::Any, PortType::Any]);
    s.on_ui_connect(1, PortType::Phase);
    let ins = s.ui_inputs();
    assert_eq!(ins[1].def.port_type, PortType::Phase);
    assert_eq!(ins[1].fill, Some(Rgb { r: 240, g: 140, b: 80 }));
    assert_eq!(ins[0].fill, None);
    s.on_ui_connect(0, PortType::Logic);
    assert_eq!(s.ui_inputs()[0].fill, Some(Rgb { r: 80, g: 240, b: 120 }));
    s.on_ui_connect(5, PortType::Logic);
    assert_eq!(s.ui_inputs().len(), 2);
    s.on_ui_disconnect(1);
    let ins = s.ui_inputs();
    assert_eq!(ins[1].def.port_type, PortType::Any);
    assert_eq!(ins[1].fill, None);
    assert_eq!(ins[1].def.name, "in 2");
}

#[test]
fn which_nodes_can_be_resized() {
    assert!(ColorDisplayWidget::new(NodeId(1), ()).resizable());
    assert!(ScopeWidget::new(NodeId(2), ()).resizable());
    assert!(ValueDisplayWidget::new(NodeId(3), ()).resizable());
    assert!(!MultiplexerWidget::new(NodeId(4), (), range()).resizable());
}

#[test]
fn constant_type_name_follows_its_port_type() {
    let names = vec![
        "Constant Logic", "Constant Phase", "Constant", "Constant Any", "Constant Color",
        "Constant Position", "Constant Palette", "Constant Gradient", "Constant Stack",
    ];
    assert_eq!(ConstantWidget::new(NodeId(1), PortType::Color, ()).type_label(&names), "Constant Color");
    assert_eq!(ConstantWidget::new(NodeId(2), PortType::Untyped, ()).type_label(&names), "Constant");
    assert_eq!(ConstantWidget::new(NodeId(3), PortType::Logic, ()).type_label(&names), "Constant Logic");
}
