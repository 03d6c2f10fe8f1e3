use lightbeat::graph::{
    bridge_in_node_id, bridge_out_node_id, bundle_key, connect_label, CanvasActions, CanvasKeys, compute_bundle_pairs, compute_greedy_pairs, compute_snap_candidates,
    EngineCommand, MacroRequest, NodeGraph, NodePorts, PortSlot, SubgraphInnerCmd, WidgetEvent,
};
use lightbeat::ports::{make_port_id, port_type_from_idx, port_type_to_idx, Connection, NodeId, PortDir, PortId, PortType, PORT_TYPE_COUNT};
use lightbeat::subgraph::SubgraphPortDef;
use lightbeat::text::{decimal, input_label, with_number};
use lightbeat::wiring::{any_wire_from, any_wire_into, contains_connection, insert_connection, retain_not_into, source_into};

fn out(node: u64, index: usize) -> PortId {
    make_port_id(NodeId(node), PortDir::Output, index)
}

fn inp(node: u64, index: usize) -> PortId {
    make_port_id(NodeId(node), PortDir::Input, index)
}

fn slot(t: PortType) -> PortSlot {
    PortSlot { port_type: t, disabled: false }
}

fn ports(id: u64, ins: &[PortType], outs: &[PortType]) -> NodePorts {
    NodePorts {
        id: NodeId(id),
        inputs: ins.iter().map(|t| slot(*t)).collect(),
        outputs: outs.iter().map(|t| slot(*t)).collect(),
    }
}

fn sorted(mut v: Vec<Connection>) -> Vec<(u64, usize, u64, usize)> {
    let mut r: Vec<(u64, usize, u64, usize)> = v.drain(..).map(|c| (c.from.node.0, c.from.index, c.to.node.0, c.to.index)).collect();
    r.sort();
    r
}

#[test]
fn port_types_compatibility() {
    assert!(PortType::Logic.compatible_with(&PortType::Logic));
    assert!(PortType::Any.compatible_with(&PortType::Color));
    assert!(PortType::Gradient.compatible_with(&PortType::Any));
    assert!(!PortType::Logic.compatible_with(&PortType::Phase));
    assert!(!PortType::Color.compatible_with(&PortType::Palette));
}

#[test]
fn port_type_picker_positions() {
    assert_eq!(PORT_TYPE_COUNT, 9);
    assert_eq!(port_type_to_idx(PortType::Untyped), 2);
    assert_eq!(port_type_to_idx(PortType::ColorStack), 8);
    assert_eq!(port_type_from_idx(4), PortType::Color);
    assert_eq!(port_type_from_idx(99), PortType::Untyped);
    for t in [PortType::Logic, PortType::Phase, PortType::Untyped, PortType::Any, PortType::Color,
        PortType::Position, PortType::Palette, PortType::Gradient, PortType::ColorStack] {
        assert_eq!(port_type_from_idx(port_type_to_idx(t)), t);
    }
}

#[test]
fn number_text() {
    assert_eq!(decimal(0), "0");
    assert_eq!(decimal(907), "907");
    assert_eq!(with_number("in ", 12), "in 12");
    assert_eq!(input_label(0), "a");
    assert_eq!(input_label(25), "z");
    assert_eq!(input_label(26), "in27");
}

#[test]
fn wire_list_helpers() {
    let mut conns = Vec::new();
    let c1 = Connection { from: out(1, 0), to: inp(2, 0) };
    let c2 = Connection { from: out(1, 0), to: inp(3, 1) };
    assert!(insert_connection(&mut conns, c1));
    assert!(!insert_connection(&mut conns, c1));
    assert!(insert_connection(&mut conns, c2));
    assert!(contains_connection(&conns, c2));
    assert!(any_wire_into(&conns, inp(3, 1)));
    assert!(any_wire_from(&conns, out(1, 0)));
    assert_eq!(source_into(&conns, inp(2, 0)), Some(out(1, 0)));
    retain_not_into(&mut conns, inp(2, 0));
    assert_eq!(conns.len(), 1);
    assert_eq!(source_into(&conns, inp(2, 0)), None);
}

#[test]
fn new_graph_is_empty_root() {
    let g: NodeGraph<&str> = NodeGraph::new();
    assert_eq!(g.node_count(), 0);
    assert!(!g.is_in_subgraph());
    assert_eq!(g.active_level_index(), 0);
    assert!(g.current_subgraph_path().is_empty());
    assert_eq!(g.levels[0].label, "Root");
    assert_eq!(bridge_in_node_id(), NodeId(u64::MAX - 1));
    assert_eq!(bridge_out_node_id(), NodeId(u64::MAX));
}

#[test]
fn ids_are_fresh() {
    let mut g: NodeGraph<&str> = NodeGraph::new();
    assert_eq!(g.alloc_id(), NodeId(1));
    assert_eq!(g.alloc_id(), NodeId(2));
    g.add_node("x", NodeId(10));
    assert_eq!(g.alloc_id(), NodeId(11));
    g.bump_next_id_above(40);
    assert_eq!(g.alloc_id(), NodeId(41));
    let new_nodes = g.drain_new_nodes();
    assert_eq!(new_nodes.len(), 1);
    assert_eq!(new_nodes[0].index, 0);
    assert!(g.drain_new_nodes().is_empty());
}

#[test]
fn connecting_notifies_widgets_and_engine() {
    let mut g: NodeGraph<&str> = NodeGraph::new();
    g.add_node("lfo", NodeId(1));
    g.add_node("scope", NodeId(2));
    let table = vec![ports(1, &[], &[PortType::Phase]), ports(2, &[PortType::Any], &[])];
    assert!(g.add_connection(out(1, 0), inp(2, 0), &table));
    assert!(!g.add_connection(out(1, 0), inp(2, 0), &table));
    assert_eq!(g.connections().len(), 1);
    let events = g.drain_widget_events();
    assert_eq!(events.len(), 2);
    assert_eq!(events[0], WidgetEvent::InputConnected { level: 0, node: NodeId(2), port: 0, source_type: PortType::Phase });
    assert_eq!(events[1], WidgetEvent::OutputConnected { level: 0, node: NodeId(1), port: 0, dest_type: PortType::Any });
    let cmds = g.drain_engine_commands();
    assert_eq!(cmds.len(), 2);
    assert!(matches!(cmds[1], EngineCommand::AddConnection(c) if c.to == inp(2, 0)));
    g.remove_connection_to(inp(2, 0));
    assert!(g.connections().is_empty());
    let events = g.drain_widget_events();
    assert!(events.contains(&WidgetEvent::InputDisconnected { level: 0, node: NodeId(2), port: 0 }));
    assert!(events.contains(&WidgetEvent::OutputDisconnected { level: 0, node: NodeId(1), port: 0 }));
}

#[test]
fn selecting_and_deleting() {
    let mut g: NodeGraph<&str> = NodeGraph::new();
    for i in 1..=3 {
        g.add_node("n", NodeId(i));
    }
    let table = vec![
        ports(1, &[], &[PortType::Untyped]),
        ports(2, &[PortType::Untyped], &[PortType::Untyped]),
        ports(3, &[PortType::Untyped], &[]),
    ];
    g.add_connection(out(1, 0), inp(2, 0), &table);
    g.add_connection(out(2, 0), inp(3, 0), &table);
    g.click_select(1, false);
    assert_eq!(g.selected_nodes, vec![1]);
    g.click_select(0, true);
    assert_eq!(g.selected_nodes, vec![1, 0]);
    g.click_select(1, true);
    assert_eq!(g.selected_nodes, vec![0]);
    g.click_select(1, false);
    assert_eq!(g.selected_nodes, vec![1]);
    g.drain_engine_commands();
    let removed = g.delete_selected();
    assert_eq!(removed, vec![NodeId(2)]);
    assert_eq!(g.node_count(), 2);
    assert!(g.connections().is_empty());
    assert!(g.selected_nodes.is_empty());
    let cmds = g.drain_engine_commands();
    assert!(cmds.iter().any(|c| matches!(c, EngineCommand::RemoveNode(NodeId(2)))));
}

#[test]
fn bundle_and_greedy_pairing() {
    let outs = vec![slot(PortType::Logic), slot(PortType::Color), slot(PortType::Untyped)];
    let ins = vec![slot(PortType::Logic), slot(PortType::Any), PortSlot { port_type: PortType::Untyped, disabled: true }];
    assert_eq!(compute_bundle_pairs(&outs, &ins, 0, 0, 3), vec![(0, 0), (1, 1)]);
    assert_eq!(compute_bundle_pairs(&outs, &ins, 1, 0, 2), vec![(2, 1)]);
    assert_eq!(compute_greedy_pairs(&outs, &ins), vec![(0, 0), (1, 1)]);
}

#[test]
fn stale_wires_are_cleaned_up() {
    let mut g: NodeGraph<&str> = NodeGraph::new();
    g.add_node("a", NodeId(1));
    g.add_node("b", NodeId(2));
    let table = vec![ports(1, &[], &[PortType::Logic, PortType::Logic]), ports(2, &[PortType::Logic, PortType::Logic], &[])];
    g.add_connection(out(1, 0), inp(2, 0), &table);
    g.add_connection(out(1, 1), inp(2, 1), &table);
    let shrunk = vec![ports(1, &[], &[PortType::Logic]), ports(2, &[PortType::Logic, PortType::Logic], &[])];
    g.cleanup_stale_connections(&shrunk);
    assert_eq!(sorted(g.connections().clone()), vec![(1, 0, 2, 0)]);
}

#[test]
fn macro_requests_carry_the_path() {
    let mut g: NodeGraph<&str> = NodeGraph::new();
    assert!(g.take_macro_request().is_none());
    g.request_save_macro(NodeId(4));
    match g.take_macro_request() {
        Some(MacroRequest::SaveAs { node_id, subgraph_path }) => {
            assert_eq!(node_id, NodeId(4));
            assert!(subgraph_path.is_empty());
        }
        None => panic!("no request"),
    }
    assert!(g.take_macro_request().is_none());
}

#[test]
fn navigating_into_and_out_of_subgraphs() {
    let mut g: NodeGraph<&str> = NodeGraph::new();
    g.add_node("sub", NodeId(5));
    assert!(g.navigate_into(0, "Inner".to_string(), "gi", "go"));
    assert!(g.is_in_subgraph());
    assert_eq!(g.current_subgraph_path(), vec![NodeId(5)]);
    assert_eq!(g.node_count(), 2);
    assert_eq!(g.find_level_for_subgraph(NodeId(5)), Some(1));
    g.add_node("inner", NodeId(6));
    let table = vec![ports(6, &[PortType::Logic], &[])];
    g.add_connection(out(bridge_in_node_id().0, 0), inp(6, 0), &table);
    let cmds = g.drain_engine_commands();
    assert!(cmds.iter().any(|c| matches!(c,
        EngineCommand::SubgraphInnerCommand { subgraph_path, command }
            if subgraph_path == &vec![NodeId(5)] && matches!(**command, SubgraphInnerCmd::AddConnection(_)))));
    g.navigate_up();
    assert!(!g.is_in_subgraph());
    assert_eq!(g.bridge_node_indices(), (vec![], vec![]));
    assert!(!g.navigate_into(0, "Inner".to_string(), "gi", "go"));
    assert_eq!(g.node_count(), 3);
    assert_eq!(g.bridge_node_indices(), (vec![0], vec![1]));
    g.navigate_to_level(0);
    assert_eq!(g.active_level_index(), 0);
}

#[test]
fn moving_to_a_subgraph_and_unpacking_restores_wires() {
    let mut g: NodeGraph<&str> = NodeGraph::new();
    for i in 1..=4 {
        g.add_node("n", NodeId(i));
    }
    let u = PortType::Untyped;
    let mut table = vec![
        ports(1, &[], &[u]),
        ports(2, &[u], &[u]),
        ports(3, &[u], &[u]),
        ports(4, &[u, u], &[]),
    ];
    g.add_connection(out(1, 0), inp(2, 0), &table);
    g.add_connection(out(2, 0), inp(3, 0), &table);
    g.add_connection(out(3, 0), inp(4, 0), &table);
    g.add_connection(out(1, 0), inp(4, 1), &table);
    let before = sorted(g.connections().clone());
    g.click_select(1, false);
    g.click_select(2, true);
    let (ins, outs) = g.plan_subgraph_ports(&table);
    assert_eq!(ins.len(), 1);
    assert_eq!(outs.len(), 1);
    assert_eq!(ins[0].name, "in 0");
    assert_eq!(outs[0].name, "out 0");
    assert_eq!(outs[0].port_type_idx, 2);
    let sub_id = NodeId(g.next_id);
    table.push(ports(sub_id.0, &[u], &[u]));
    let moved = g.move_selection_to_subgraph(&table, "sub", "Sub".to_string(), "gi", "go").unwrap();
    assert_eq!(moved.sub_id, sub_id);
    assert!(!g.is_in_subgraph());
    assert_eq!(g.node_count(), 3);
    let outer = sorted(g.connections().clone());
    assert!(outer.contains(&(1, 0, sub_id.0, 0)));
    assert!(outer.contains(&(sub_id.0, 0, 4, 0)));
    assert!(outer.contains(&(1, 0, 4, 1)));
    let inner = sorted(g.levels[moved.inner_level].connections.clone());
    assert_eq!(inner.len(), 3);
    let unpacked = g.unpack_subgraph(moved.sub_index, true).unwrap();
    assert_eq!(unpacked.sub_id, sub_id);
    assert_eq!(unpacked.end - unpacked.start, 2);
    assert_eq!(g.node_count(), 4);
    assert_eq!(sorted(g.connections().clone()), before);
}

#[test]
fn unpack_refuses_non_subgraphs() {
    let mut g: NodeGraph<&str> = NodeGraph::new();
    g.add_node("plain", NodeId(1));
    assert!(g.unpack_subgraph(0, false).is_none());
    assert!(g.unpack_subgraph(0, true).is_none());
    assert!(g.unpack_subgraph(7, true).is_none());
    assert_eq!(g.node_count(), 1);
}

#[test]
fn subgraph_port_def_conversion() {
    let d = SubgraphPortDef { name: "x".to_string(), port_type_idx: 6 };
    let p = d.to_port_def();
    assert_eq!(p.name, "x");
    assert_eq!(p.port_type, PortType::Palette);
}

#[test]
fn pasted_nodes_become_the_selection() {
    let mut g: NodeGraph<&str> = NodeGraph::new();
    let a = g.alloc_id();
    g.add_node("a", a);
    g.click_select(0, false);
    let b = g.alloc_id();
    let c = g.alloc_id();
    let placed = g.add_pasted(vec![("b", b), ("c", c)]);
    assert_eq!(placed, vec![1, 2]);
    assert_eq!(g.selected_nodes, vec![1, 2]);
    assert_eq!(g.node_count(), 3);
    assert!(g.connections().is_empty());
    let news = g.drain_new_nodes();
    assert_eq!(news.len(), 3);
    assert_eq!(news[1].index, 1);
    assert_eq!(news[2].index, 2);
    assert!(news[2].subgraph_path.is_empty());
}

#[test]
fn dragged_wires_snap_only_to_compatible_ports() {
    let table = vec![
        ports(1, &[], &[PortType::Logic]),
        NodePorts {
            id: NodeId(2),
            inputs: vec![
                slot(PortType::Logic),
                PortSlot { port_type: PortType::Logic, disabled: true },
                slot(PortType::Color),
                slot(PortType::Any),
            ],
            outputs: vec![slot(PortType::Logic)],
        },
    ];
    assert_eq!(compute_snap_candidates(&table, PortDir::Output, PortType::Logic, NodeId(1)), vec![inp(2, 0), inp(2, 3)]);
    assert!(compute_snap_candidates(&table, PortDir::Output, PortType::Logic, NodeId(2)).is_empty());
    assert_eq!(compute_snap_candidates(&table, PortDir::Input, PortType::Logic, NodeId(2)), vec![out(1, 0)]);
}

#[test]
fn releasing_a_dragged_wire() {
    let mut g: NodeGraph<&str> = NodeGraph::new();
    for i in 1..=3 {
        g.add_node("n", NodeId(i));
    }
    let u = PortType::Untyped;
    let table = vec![ports(1, &[], &[u, u, u]), ports(2, &[], &[u]), ports(3, &[u, u, u], &[])];
    g.add_connection(out(1, 0), inp(3, 0), &table);
    // a single wire replaces what fed the input
    g.finish_wire_drag(out(2, 0), Some(inp(3, 0)), 1, None, &table);
    assert_eq!(sorted(g.connections().clone()), vec![(2, 0, 3, 0)]);
    // dragged from the input end
    g.finish_wire_drag(inp(3, 0), Some(out(1, 0)), 0, None, &table);
    assert_eq!(sorted(g.connections().clone()), vec![(1, 0, 3, 0)]);
    // a bundle of three
    g.finish_wire_drag(out(1, 0), Some(inp(3, 0)), 3, None, &table);
    assert_eq!(sorted(g.connections().clone()), vec![(1, 0, 3, 0), (1, 1, 3, 1), (1, 2, 3, 2)]);
    // grabbing input 0 off, then dropping a bundle of 3 on empty canvas
    g.remove_connection_to(inp(3, 0));
    g.finish_wire_drag(out(1, 0), None, 3, Some(inp(3, 0)), &table);
    assert!(g.connections().is_empty());
    // nothing snapped, single wire: nothing changes
    g.add_connection(out(1, 0), inp(3, 0), &table);
    g.finish_wire_drag(out(1, 1), None, 1, Some(inp(3, 1)), &table);
    assert_eq!(sorted(g.connections().clone()), vec![(1, 0, 3, 0)]);
}

#[test]
fn auto_connect_menu_label() {
    assert_eq!(connect_label(1), "Connect 1 port");
    assert_eq!(connect_label(3), "Connect 3 ports");
}

#[test]
fn moving_inside_a_subgraph_returns_to_that_level_and_unpack_restores() {
    let mut g: NodeGraph<&str> = NodeGraph::new();
    g.add_node("A", NodeId(5));
    g.add_node("B", NodeId(6));
    g.click_select(0, false);
    assert!(g.navigate_into(0, "A".to_string(), "gi", "go"));
    g.navigate_up();
    assert!(g.navigate_into(1, "B".to_string(), "gi", "go"));
    g.navigate_up();
    assert!(!g.navigate_into(0, "A".to_string(), "gi", "go"));
    assert_eq!(g.active_level_index(), 1);
    let path = g.current_subgraph_path();
    g.add_node("x", NodeId(7));
    g.add_node("y", NodeId(8));
    let u = PortType::Untyped;
    let bi = bridge_in_node_id().0;
    let bo = bridge_out_node_id().0;
    let mut table = vec![ports(bi, &[], &[u]), ports(bo, &[u], &[]), ports(7, &[u], &[u]), ports(8, &[u], &[u])];
    g.add_connection(out(bi, 0), inp(7, 0), &table);
    g.add_connection(out(7, 0), inp(8, 0), &table);
    g.add_connection(out(8, 0), inp(bo, 0), &table);
    let before = sorted(g.connections().clone());
    let mut ids_before: Vec<u64> = g.levels[1].node_ids.iter().map(|n| n.0).collect();
    ids_before.sort();
    g.click_select(2, false);
    g.click_select(3, true);
    let sub_id = NodeId(g.next_id);
    table.push(ports(sub_id.0, &[u], &[u]));
    let moved = g.move_selection_to_subgraph(&table, "sub", "Sub".to_string(), "gi", "go").unwrap();
    assert_eq!(moved.inner_level, 3);
    assert_eq!(g.active_level_index(), 1);
    assert_eq!(g.current_subgraph_path(), path);
    assert!(g.selected_nodes.is_empty());
    g.unpack_subgraph(moved.sub_index, true).unwrap();
    assert_eq!(sorted(g.connections().clone()), before);
    let mut ids_after: Vec<u64> = g.levels[1].node_ids.iter().map(|n| n.0).collect();
    ids_after.sort();
    assert_eq!(ids_after, ids_before);
}

#[test]
fn selected_wires_are_deleted_with_the_nodes() {
    let mut g: NodeGraph<&str> = NodeGraph::new();
    for i in 1..=3 {
        g.add_node("n", NodeId(i));
    }
    let u = PortType::Untyped;
    let table = vec![ports(1, &[], &[u, u]), ports(2, &[u, u], &[u]), ports(3, &[u], &[])];
    let w1 = Connection { from: out(1, 0), to: inp(2, 0) };
    let w2 = Connection { from: out(1, 1), to: inp(2, 1) };
    let w3 = Connection { from: out(2, 0), to: inp(3, 0) };
    for w in [w1, w2, w3] {
        g.add_connection(w.from, w.to, &table);
    }
    g.click_select(0, false);
    g.click_wire(w1, false);
    assert!(g.selected_nodes.is_empty());
    assert_eq!(g.selected_connections, vec![w1]);
    g.click_wire(w2, true);
    g.click_wire(w1, true);
    assert_eq!(g.selected_connections, vec![w2]);
    g.select_in_rect(vec![], &vec![w2, w2, w3]);
    assert_eq!(g.selected_connections, vec![w2, w3]);
    let removed = g.delete_selected();
    assert!(removed.is_empty());
    assert_eq!(sorted(g.connections().clone()), vec![(1, 0, 2, 0)]);
    assert!(g.selected_connections.is_empty());
    g.click_wire(w1, false);
    g.click_select(2, true);
    assert_eq!(g.delete_selected(), vec![NodeId(3)]);
    assert!(g.connections().is_empty());
    assert_eq!(g.node_count(), 2);
}

#[test]
fn unpack_refuses_the_level_it_stands_in() {
    let mut g: NodeGraph<&str> = NodeGraph::new();
    g.add_node("sub", NodeId(5));
    assert!(g.navigate_into(0, "Inner".to_string(), "gi", "go"));
    // a node inside the subgraph that carries the subgraph's own id
    g.add_node("odd", NodeId(5));
    assert!(g.unpack_subgraph(2, true).is_none());
    assert_eq!(g.node_count(), 3);
}

#[test]
fn frames_are_added_selected_and_deleted() {
    let mut g: NodeGraph<&str> = NodeGraph::new();
    g.add_node("n", NodeId(1));
    let f1 = g.add_frame_at();
    let f2 = g.add_frame_at();
    let f3 = g.add_frame_at();
    assert_eq!((f1, f2, f3), (2, 3, 4));
    assert_eq!(g.levels[0].frame_ids, vec![2, 3, 4]);
    assert_eq!(g.alloc_id(), NodeId(5));
    g.click_select(0, false);
    g.click_frame(f1, false);
    assert!(g.selected_nodes.is_empty());
    assert_eq!(g.selected_frame_ids(), &vec![2]);
    g.click_frame(f3, true);
    g.click_frame(f3, true);
    assert_eq!(g.selected_frame_ids(), &vec![2, 4]);
    let removed = g.delete_selected();
    assert!(removed.is_empty());
    assert_eq!(g.levels[0].frame_ids, vec![3]);
    assert!(g.selected_frame_ids().is_empty());
    assert_eq!(g.node_count(), 1);
    g.click_frame(f2, false);
    g.click_select(0, true);
    assert_eq!(g.delete_selected(), vec![NodeId(1)]);
    assert!(g.levels[0].frame_ids.is_empty());
    g.click_frame(f2, false);
    g.clear_selection();
    assert!(g.selected_frame_ids().is_empty());
    g.click_frame(f2, false);
    g.deselect_all_frames();
    assert!(g.selected_frame_ids().is_empty());
}

fn keys(delete: bool, fit: bool, d: bool, c: bool, v: bool, ctrl: bool) -> CanvasKeys {
    CanvasKeys { delete, fit, d, c, v, ctrl, text_focus: false, pointer_over_canvas: true }
}

#[test]
fn canvas_shortcuts() {
    let mut g: NodeGraph<&str> = NodeGraph::new();
    g.add_node("a", NodeId(1));
    g.add_node("b", NodeId(2));
    let none = CanvasActions { delete: false, fit: false, duplicate: false, copy: false, paste: false };
    assert_eq!(g.keyboard_actions(keys(true, false, false, false, false, false), true), none);
    assert_eq!(g.keyboard_actions(keys(false, true, false, false, false, false), true), CanvasActions { fit: true, ..none });
    assert_eq!(g.keyboard_actions(keys(false, false, false, false, true, true), false), CanvasActions { paste: true, ..none });
    assert_eq!(g.keyboard_actions(keys(false, false, false, false, true, false), false), none);
    g.click_select(1, false);
    assert_eq!(g.keyboard_actions(keys(true, false, false, false, false, false), true), CanvasActions { delete: true, ..none });
    assert_eq!(g.keyboard_actions(keys(false, false, true, false, false, true), true), CanvasActions { duplicate: true, ..none });
    assert_eq!(g.keyboard_actions(keys(false, false, false, true, false, true), true), CanvasActions { copy: true, ..none });
    let mut focused = keys(true, true, true, true, true, true);
    focused.text_focus = true;
    assert_eq!(g.keyboard_actions(focused, false), none);
    let mut away = keys(true, false, false, false, false, false);
    away.pointer_over_canvas = false;
    assert_eq!(g.keyboard_actions(away, true), none);
    g.click_select(0, true);
    assert_eq!(g.copy_selection(), vec![(1, NodeId(2)), (0, NodeId(1))]);
    g.clear_selection();
    assert!(g.copy_selection().is_empty());
    let f = g.add_frame_at();
    g.click_frame(f, false);
    assert_eq!(g.keyboard_actions(keys(true, false, false, true, false, true), true), CanvasActions { delete: true, ..none });
}

#[test]
fn bundle_size_keys() {
    assert_eq!(bundle_key(true, Some(5)), Some(1));
    assert_eq!(bundle_key(false, Some(2)), Some(2));
    assert_eq!(bundle_key(false, Some(9)), Some(9));
    assert_eq!(bundle_key(false, Some(0)), Some(10));
    assert_eq!(bundle_key(false, Some(1)), None);
    assert_eq!(bundle_key(false, None), None);
}
