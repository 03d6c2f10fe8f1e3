use lightbeat::graph::NodeGraph;
use lightbeat::inspect::{common_params, visible_params, ParamKey, ParamKind};
use lightbeat::nodes::lookup::{column_type_from_label, column_type_label, LookupColumn, LookupTable, LookupWidget, MAX_COLUMNS, MAX_ROWS};
use lightbeat::nodes::output::{blend_label, layer_for_input, layer_ports, BlendMode, EffectStackWidget};
use lightbeat::nodes::variadic::TriggerBankWidget;
use lightbeat::ports::{NodeId, PortDef, PortType};

/// Channel counts by type picker position: Logic, Phase, Untyped, Any,
/// Color, Position, Palette, Gradient, ColorStack.
fn widths() -> Vec<usize> {
    vec![1, 1, 1, 1, 3, 2, 12, 40, 12]
}

fn table() -> LookupTable<i32> {
    LookupTable::new(widths(), vec![10, 20, 30, 40], 0)
}

fn key(name: &str, kind: ParamKind) -> ParamKey {
    ParamKey { name: name.to_string(), kind }
}

#[test]
fn common_params_need_same_name_and_kind() {
    let a = vec![key("Rate", ParamKind::Float), key("Mode", ParamKind::Choice), key("On", ParamKind::Bool)];
    let b = vec![key("On", ParamKind::Bool), key("Rate", ParamKind::Float), key("Mode", ParamKind::Int)];
    let c = vec![key("Rate", ParamKind::Float), key("On", ParamKind::Bool)];
    assert_eq!(common_params(&vec![]), Vec::<usize>::new());
    assert_eq!(common_params(&vec![a.clone()]), vec![0, 1, 2]);
    assert_eq!(common_params(&vec![a.clone(), b]), vec![0, 2]);
    assert_eq!(common_params(&vec![a, c, vec![]]), Vec::<usize>::new());
}

#[test]
fn visible_params_skip_hidden() {
    assert_eq!(visible_params(4, &vec![1, 3]), vec![0, 2]);
    assert_eq!(visible_params(2, &vec![]), vec![0, 1]);
    assert_eq!(visible_params(0, &vec![0]), Vec::<usize>::new());
}

#[test]
fn trigger_bank_channels() {
    let mut w = TriggerBankWidget::new(NodeId(1), ());
    let ins: Vec<String> = w.ui_inputs().iter().map(|p| p.def.name.clone()).collect();
    assert_eq!(ins, vec!["In 1", "In 2", "In 3", "In 4"]);
    assert!(w.ui_outputs().iter().all(|p| p.def.port_type == PortType::Logic));
    w.restore_channel_count(2, 1, 16);
    assert_eq!(w.ui_outputs().len(), 2);
    w.restore_channel_count(99, 1, 16);
    assert_eq!(w.n, 16);
}

#[test]
fn effect_stack_layers() {
    assert_eq!(blend_label(BlendMode::Multiply), "Multiply");
    assert_eq!(layer_for_input(&vec![2, 0, 3], 0), Some(0));
    assert_eq!(layer_for_input(&vec![2, 0, 3], 1), Some(0));
    assert_eq!(layer_for_input(&vec![2, 0, 3], 2), Some(2));
    assert_eq!(layer_for_input(&vec![2, 0, 3], 4), Some(2));
    assert_eq!(layer_for_input(&vec![2, 0, 3], 5), None);
    let ports = layer_ports(&vec![
        vec![PortDef::new("pos", PortType::Untyped)],
        vec![PortDef::new("col", PortType::Color), PortDef::new("w", PortType::Untyped)],
    ]);
    let names: Vec<String> = ports.iter().map(|p| p.def.name.clone()).collect();
    assert_eq!(names, vec!["L1.pos", "L2.col", "L2.w"]);
    assert_eq!(ports[1].def.port_type, PortType::Color);
    let mut w: EffectStackWidget<&str, (), ()> = EffectStackWidget::new(NodeId(1), (), ());
    assert_eq!(w.status_text(3), "No groups");
    w.add_layer("bar");
    w.add_layer("wave");
    w.add_layer("noise");
    w.move_layer_up(2);
    assert_eq!(w.layers, vec!["bar", "noise", "wave"]);
    w.move_layer_up(0);
    assert_eq!(w.layers, vec!["bar", "noise", "wave"]);
    w.move_layer_down(0);
    assert_eq!(w.layers, vec!["noise", "bar", "wave"]);
    w.move_layer_down(2);
    assert_eq!(w.layers, vec!["noise", "bar", "wave"]);
    w.remove_layer(1);
    assert_eq!(w.layers, vec!["noise", "wave"]);
    w.toggle_group(4, true);
    assert_eq!(w.status_text(3), "2 layers, 3 strips");
}

#[test]
fn lookup_add_and_remove_columns_keep_cells() {
    let mut t = table();
    assert_eq!(t.row_stride(), 1);
    t.add_column();
    assert_eq!(t.columns[1].name, "col2");
    assert_eq!(t.row_stride(), 2);
    assert_eq!(t.data, vec![10, 0, 20, 0, 30, 0, 40, 0]);
    t.set_column_type(1, PortType::Color);
    assert_eq!(t.row_stride(), 4);
    assert_eq!(t.column_channel_offset(1), 1);
    assert_eq!(t.data.len(), 16);
    assert_eq!(t.data[4], 20);
    t.set_column_type(0, PortType::Position);
    assert_eq!(t.row_stride(), 5);
    assert_eq!(t.data[..5].to_vec(), vec![0, 0, 0, 0, 0]);
    t.remove_column(0);
    assert_eq!(t.columns.len(), 1);
    assert_eq!(t.columns[0].name, "col2");
    assert_eq!(t.row_stride(), 3);
    t.remove_column(0);
    assert_eq!(t.columns.len(), 1);
    t.remove_column(7);
    assert_eq!(t.columns.len(), 1);
}

#[test]
fn lookup_column_limit() {
    let mut t = table();
    for _ in 0..20 {
        t.add_column();
    }
    assert_eq!(t.columns.len(), MAX_COLUMNS);
    assert_eq!(t.data.len(), 4 * MAX_COLUMNS);
    assert_eq!(t.columns[7].name, "col8");
}

#[test]
fn lookup_rows() {
    let mut t = table();
    t.add_row();
    assert_eq!(t.row_count, 5);
    assert_eq!(t.data, vec![10, 20, 30, 40, 0]);
    t.remove_row(1);
    assert_eq!(t.data, vec![10, 30, 40, 0]);
    t.remove_row(9);
    assert_eq!(t.row_count, 4);
    for _ in 0..100 {
        t.add_row();
    }
    assert_eq!(t.row_count, MAX_ROWS);
    let mut one = LookupTable::new(widths(), vec![1, 2, 3, 4], 0);
    for _ in 0..5 {
        one.remove_row(0);
    }
    assert_eq!(one.row_count, 1);
    assert_eq!(one.data, vec![4]);
}

#[test]
fn lookup_restore_fixes_size() {
    let mut t = table();
    t.restore(
        Some(vec![
            LookupColumn { name: "a".to_string(), port_type: PortType::Untyped },
            LookupColumn { name: "b".to_string(), port_type: PortType::Position },
        ]),
        Some(2),
        Some(vec![1, 2, 3, 4]),
    );
    assert_eq!(t.row_stride(), 3);
    assert_eq!(t.data, vec![1, 2, 3, 4, 0, 0]);
    t.restore(None, Some(1), None);
    assert_eq!(t.data, vec![1, 2, 3]);
}

#[test]
fn lookup_widget_ports() {
    let mut w: LookupWidget<(), (), i32> = LookupWidget::new(NodeId(1), (), (), widths(), vec![0, 1, 2, 3], 0);
    assert_eq!(w.ui_inputs()[0].def.name, "index");
    w.table.add_column();
    let outs: Vec<(String, PortType)> = w.ui_outputs().iter().map(|p| (p.def.name.clone(), p.def.port_type)).collect();
    assert_eq!(outs, vec![
        ("rows".to_string(), PortType::Untyped),
        ("value".to_string(), PortType::Untyped),
        ("col2".to_string(), PortType::Untyped),
    ]);
    w.sync_current_row(2);
    assert_eq!(w.current_row, 2);
    assert_eq!(column_type_label(PortType::Palette), "Palette");
    assert_eq!(column_type_label(PortType::Any), "—");
}

#[test]
fn level_for_a_subgraph_path() {
    let mut g: NodeGraph<&str> = NodeGraph::new();
    g.add_node("sub", NodeId(5));
    g.navigate_into(0, "Inner".to_string(), "gi", "go");
    assert_eq!(g.level_for_path(&vec![]), 0);
    assert_eq!(g.level_for_path(&vec![NodeId(5)]), 1);
    assert_eq!(g.level_for_path(&vec![NodeId(77)]), 1);
    g.navigate_up();
    assert_eq!(g.level_for_path(&vec![NodeId(77)]), 0);
}

#[test]
fn column_type_labels_read_back() {
    for t in [
        PortType::Untyped, PortType::Logic, PortType::Phase, PortType::Color,
        PortType::Position, PortType::Palette, PortType::Gradient,
    ] {
        assert_eq!(column_type_from_label(column_type_label(t)), t);
    }
    assert_eq!(column_type_from_label("Palette"), PortType::Palette);
    assert_eq!(column_type_from_label("—"), PortType::Untyped);
    assert_eq!(column_type_from_label("palette"), PortType::Untyped);
    assert_eq!(column_type_from_label(""), PortType::Untyped);
}
