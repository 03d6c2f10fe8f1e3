use lightbeat::lists::{
    default_name, next_free_id, remove_with_id, ColorGroupManager, ColorPaletteGroupManager,
    ColorPaletteManager, ColorStackManager, FixtureManager, GradientPresetManager, GroupManager,
    Identified, InterfaceEntry, InterfaceManager, Keyed, SavedInterface,
};
use lightbeat::nodes::output::{
    bar_pattern_strips, group_strip_layouts, resolve_groups, stack_targets, toggle_selection, BarPatternWidget, GroupMode,
    GroupOutputContext, GroupSummary, GroupWidget, ObjectSummary, StackTarget, StripPick,
};
use lightbeat::nodes::select::{
    available_groups, palette_status, resolve_palette_groups, GradientLibraryContext, PaletteContext, PaletteGroupSummary,
    PaletteSelectWidget, PendingPresetSave,
};
use lightbeat::panels::{
    connection_label, controller_header, learn_label, port_label, ConnectionStatus, DmxMonitor, ExampleWidget, Orientation,
};
use lightbeat::ports::{NodeId, PortType};
use lightbeat::registry::{contains_text, NodeRegistry};

fn saved(id: u32, name: &str) -> SavedInterface<u8> {
    SavedInterface { id, name: name.to_string(), config: 1, enabled: true }
}

#[test]
fn next_free_id_is_one_past_max() {
    assert_eq!(next_free_id(&Vec::<SavedInterface<u8>>::new()), 1);
    assert_eq!(next_free_id(&vec![saved(3, "a"), saved(9, "b"), saved(2, "c")]), 10);
}

#[test]
fn managers_start_empty_and_load_past_max() {
    let m: ColorGroupManager<SavedInterface<u8>> = ColorGroupManager::new();
    assert_eq!(m.next_id, 1);
    assert!(m.groups.is_empty());
    let m = ColorGroupManager::from_groups(vec![saved(4, "x"), saved(2, "y")]);
    assert_eq!(m.next_id, 5);
    assert_eq!(ColorPaletteGroupManager::from_groups(vec![saved(7, "x")]).next_id, 8);
    assert_eq!(ColorPaletteManager::from_palettes(vec![saved(1, "x")]).next_id, 2);
    assert_eq!(ColorStackManager::from_stacks(Vec::<SavedInterface<u8>>::new()).next_id, 1);
    assert_eq!(FixtureManager::from_fixtures(vec![saved(11, "x")]).next_id, 12);
    let g = GroupManager::from_groups(vec![saved(2, "x")]);
    assert_eq!(g.next_id, 3);
    assert!(g.needs_refresh);
    let g2: GroupManager<SavedInterface<u8>> = GroupManager::new();
    assert!(!g2.needs_refresh);
}

#[test]
fn reserve_insert_remove() {
    let mut m = FixtureManager::from_fixtures(vec![saved(2, "a")]);
    let (id, name) = m.reserve();
    assert_eq!(id, 3);
    assert_eq!(name, "Fixture 3");
    assert_eq!(m.next_id, 4);
    m.insert(saved(id, &name));
    assert_eq!(m.fixtures.len(), 2);
    m.remove(2);
    assert_eq!(m.fixtures.len(), 1);
    assert_eq!(m.fixtures[0].record_id(), 3);
    let mut g: ColorGroupManager<SavedInterface<u8>> = ColorGroupManager::new();
    assert_eq!(g.reserve().1, "Color Group 1");
    let mut p: ColorPaletteGroupManager<SavedInterface<u8>> = ColorPaletteGroupManager::new();
    assert_eq!(p.reserve().1, "Palette Group 1");
    let mut s: ColorStackManager<SavedInterface<u8>> = ColorStackManager::new();
    assert_eq!(s.reserve().1, "Stack 1");
    let mut gm: GroupManager<SavedInterface<u8>> = GroupManager::new();
    assert_eq!(gm.reserve().1, "Group 1");
    gm.insert(saved(1, "Group 1"));
    assert!(gm.needs_refresh);
}

#[test]
fn gradient_presets_reserve_fresh_ids() {
    let mut m = GradientPresetManager::from_presets(vec![saved(5, "g")]);
    assert_eq!(m.next_id(), 6);
    assert_eq!(m.next_id(), 7);
    let (id, name) = m.reserve();
    assert_eq!(id, 8);
    assert_eq!(name, "Gradient 8");
}

#[test]
fn remove_with_id_keeps_order() {
    let mut v = vec![saved(1, "a"), saved(2, "b"), saved(1, "c"), saved(3, "d")];
    remove_with_id(&mut v, 1);
    assert_eq!(v.iter().map(|s| s.name.clone()).collect::<Vec<_>>(), vec!["b", "d"]);
    assert_eq!(default_name("Palette ", 12), "Palette 12");
}

#[test]
fn interfaces_round_trip_through_saved_form() {
    let m = InterfaceManager::from_saved(vec![saved(2, "Art-Net 2"), saved(5, "sACN 5")]);
    assert!(m.needs_sync);
    assert_eq!(m.next_id, 6);
    assert_eq!(m.interfaces[1].name, "sACN 5");
    let back = m.to_saved();
    assert_eq!(back.len(), 2);
    assert_eq!(back[0].id, 2);
    assert_eq!(back[1].name, "sACN 5");
    assert_eq!(back[1].config, 1);
    assert!(back[1].enabled);
}

#[test]
fn interfaces_add_and_remove() {
    let mut m: InterfaceManager<&str> = InterfaceManager::new();
    assert!(!m.needs_sync);
    assert_eq!(m.add_interface("Art-Net", "artnet"), 1);
    assert_eq!(m.add_interface("sACN", "sacn"), 2);
    assert_eq!(m.interfaces[0].name, "Art-Net 1");
    assert_eq!(m.interfaces[1].name, "sACN 2");
    assert!(m.interfaces[1].enabled);
    assert!(m.needs_sync);
    m.remove(1);
    assert_eq!(m.interfaces.len(), 1);
    assert_eq!(m.interfaces[0].id, 2);
    let e = InterfaceEntry { id: 4, name: "x".to_string(), config: (), enabled: false };
    assert_eq!(e.record_id(), 4);
}

#[test]
fn group_selection_toggles() {
    let mut ids = vec![1u32, 2, 1];
    toggle_selection(&mut ids, 3, true);
    assert_eq!(ids, vec![1, 2, 1, 3]);
    toggle_selection(&mut ids, 1, false);
    assert_eq!(ids, vec![2, 3]);
}

fn group(id: u32, name: &str, objects: &[u32]) -> GroupSummary {
    GroupSummary { id, name: name.to_string(), object_ids: objects.to_vec(), strip_objects: Vec::new() }
}

fn strip_group(id: u32, objects: &[u32], strips: &[u32]) -> GroupSummary {
    GroupSummary { id, name: format!("G{}", id), object_ids: objects.to_vec(), strip_objects: strips.to_vec() }
}

fn obj(id: u32, has_strip: bool, has_color: bool) -> ObjectSummary {
    ObjectSummary { id, has_strip, has_color }
}

#[test]
fn group_output_pushes_every_strip_entry() {
    let groups = vec![strip_group(1, &[], &[5, 6]), strip_group(2, &[], &[7])];
    let picks = group_strip_layouts(&groups, &vec![2, 9, 1]);
    assert_eq!(
        picks,
        vec![StripPick { group: 1, entry: 0 }, StripPick { group: 0, entry: 0 }, StripPick { group: 0, entry: 1 }]
    );
}

#[test]
fn bar_pattern_keeps_only_led_strips() {
    let groups = vec![strip_group(1, &[], &[5, 6, 8])];
    // 5 drives a strip, 6 does not, 8 is unknown
    let objects = vec![obj(5, true, false), obj(6, false, true)];
    assert_eq!(bar_pattern_strips(&groups, &vec![1], &objects), vec![StripPick { group: 0, entry: 0 }]);
    assert!(bar_pattern_strips(&groups, &vec![3], &objects).is_empty());
}

#[test]
fn effect_stack_targets_strips_then_ranked_fixtures() {
    let groups = vec![strip_group(1, &[20, 5, 21, 22], &[5]), strip_group(2, &[30], &[])];
    let objects = vec![obj(5, true, true), obj(20, false, true), obj(21, false, false), obj(22, false, true), obj(30, false, true)];
    let t = stack_targets(&groups, &vec![1, 2], &objects);
    assert_eq!(
        t,
        vec![
            StackTarget::Strip(StripPick { group: 0, entry: 0 }),
            StackTarget::Fixture { object_id: 20, rank: 0, count: 2 },
            StackTarget::Fixture { object_id: 22, rank: 1, count: 2 },
            StackTarget::Fixture { object_id: 30, rank: 0, count: 1 },
        ]
    );
}

#[test]
fn group_resolution_dedups_objects() {
    let groups = vec![group(1, "Left", &[10, 11]), group(2, "Right", &[11, 12]), group(1, "Dup", &[99])];
    let (names, objects) = resolve_groups(&groups, &vec![2, 7, 1]);
    assert_eq!(names, vec!["Right", "Left"]);
    assert_eq!(objects, vec![11, 12, 10]);
    let (n, o) = resolve_groups(&groups, &vec![]);
    assert!(n.is_empty() && o.is_empty());
}

#[test]
fn group_output_modes() {
    let ctx: GroupOutputContext<(), ()> = GroupOutputContext::new();
    assert!(ctx.groups.is_empty());
    let mut w = GroupWidget::new(NodeId(1), (), ());
    assert_eq!(w.status_text("Flood", 0), "Flood — No groups");
    assert_eq!(w.mode, GroupMode::Flood);
    assert_eq!(w.ui_inputs().iter().map(|p| p.def.name.clone()).collect::<Vec<_>>(), vec!["palette", "dimmer"]);
    w.set_mode_from_load(GroupMode::Triggered);
    let ins = w.ui_inputs();
    assert_eq!(ins.len(), 4);
    assert_eq!(ins[3].def.port_type, PortType::Gradient);
    w.toggle_group(4, true);
    w.toggle_group(4, false);
    assert!(w.selected_group_ids.is_empty());
    w.toggle_group(2, true);
    w.toggle_group(3, true);
    assert_eq!(w.status_text("Triggered", 12), "Triggered — 2 groups, 12 obj");
    let mut b = BarPatternWidget::new(NodeId(2), (), ());
    assert_eq!(b.status_text(5), "No groups");
    b.toggle_group(1, true);
    assert_eq!(b.status_text(5), "1 groups, 5 strips");
    assert_eq!(b.type_label(), "Bar");
    assert_eq!(b.ui_inputs()[2].def.port_type, PortType::Color);
}

#[test]
fn palette_select_ordered_groups() {
    let ctx: PaletteContext<(), ()> = PaletteContext::new();
    assert!(ctx.palettes.is_empty());
    let mut w = PaletteSelectWidget::new(NodeId(1), (), ());
    w.restore_selection(&vec![]);
    assert!(w.selected_group_ids.is_empty());
    w.restore_selection(&vec![5, 6]);
    assert_eq!(w.selected_group_ids, vec![5, 6]);
    w.restore_selection(&vec![9]);
    assert_eq!(w.selected_group_ids, vec![5, 6]);
    w.add_group(7);
    w.swap_groups(0, 2);
    assert_eq!(w.selected_group_ids, vec![7, 6, 5]);
    w.remove_group(1);
    assert_eq!(w.selected_group_ids, vec![7, 5]);
    let all = vec![(5u32, "A".to_string()), (6, "B".to_string()), (7, "C".to_string())];
    let avail = available_groups(&all, &w.selected_group_ids);
    assert_eq!(avail, vec![(6, "B".to_string())]);
    assert_eq!(w.ui_outputs()[0].def.port_type, PortType::Palette);
}

#[test]
fn gradient_library_queue() {
    let mut lib: GradientLibraryContext<(), u8> = GradientLibraryContext::new();
    lib.request_save(PendingPresetSave::new("warm".to_string(), vec![1, 2]));
    lib.request_save(PendingPresetSave::new("cold".to_string(), vec![]));
    let saves = lib.drain_saves();
    assert_eq!(saves.len(), 2);
    assert_eq!(saves[0].name, "warm");
    assert_eq!(saves[0].stops, vec![1, 2]);
    assert!(lib.pending_saves.is_empty());
}

#[test]
fn example_widget_counts_clicks() {
    let mut w = ExampleWidget::new();
    assert_eq!(w.label, "Hello, LightBeat!");
    w.click();
    w.click();
    assert_eq!(w.counter, 2);
    assert_eq!(w.label, "Clicked 2 times");
    assert_ne!(Orientation::Vertical, Orientation::Horizontal);
}

#[test]
fn dmx_monitor_grid() {
    let m: DmxMonitor<u32> = DmxMonitor::new();
    assert!(m.hovered_channel.is_none() && m.selected_key.is_none());
    assert_eq!(DmxMonitor::<u32>::grid_channel(0, 0), Some(0));
    assert_eq!(DmxMonitor::<u32>::grid_channel(31, 15), Some(511));
    assert_eq!(DmxMonitor::<u32>::grid_channel(5, 2), Some(69));
    assert_eq!(DmxMonitor::<u32>::grid_channel(32, 0), None);
    assert_eq!(DmxMonitor::<u32>::grid_channel(0, 16), None);
    assert_eq!(DmxMonitor::<u32>::channel_cell(69), (5, 2));
}

#[test]
fn substring_search() {
    assert!(contains_text("mixer", "ix"));
    assert!(contains_text("mixer", ""));
    assert!(!contains_text("mix", "mixer"));
    assert!(!contains_text("mixer", "xm"));
}

#[test]
fn registry_filter_and_lookup() {
    let mut r: NodeRegistry<u8> = NodeRegistry::new();
    r.register_node("Math".to_string(), "Scaler".to_string(), "remaps", 1);
    r.register_node("_internal".to_string(), "Graph Input".to_string(), "", 2);
    r.register_node("Output".to_string(), "Mixer".to_string(), "", 3);
    r.register_node("Math".to_string(), "Counter".to_string(), "", 4);
    assert_eq!(r.filter(""), vec![0, 2, 3]);
    assert_eq!(r.filter("MIX"), vec![2]);
    assert_eq!(r.filter("math"), vec![0, 3]);
    assert_eq!(r.filter("graph"), Vec::<usize>::new());
    assert_eq!(r.find_label("Mixer"), Some(2));
    assert_eq!(r.find_label("Nope"), None);
    r.clear_category("Math");
    assert_eq!(r.entries.len(), 2);
    assert_eq!(r.entries[1].label, "Mixer");
}

#[test]
fn palette_groups_resolve_to_existing_palettes() {
    let groups = vec![
        PaletteGroupSummary { id: 1, name: "Warm".to_string(), palette_ids: vec![30, 99, 10] },
        PaletteGroupSummary { id: 2, name: "Cold".to_string(), palette_ids: vec![] },
    ];
    let palettes = vec![10, 20, 30];
    let r = resolve_palette_groups(&groups, &vec![2, 5, 1], &palettes);
    assert_eq!(r, vec![(1, vec![]), (0, vec![2, 0])]);
}

#[test]
fn palette_status_line() {
    assert_eq!(palette_status(0, 0, 0, 0), "No groups");
    assert_eq!(palette_status(0, 3, 1, 4), "G:1/3 P:2/4");
}

#[test]
fn controller_list_labels() {
    assert_eq!(connection_label(ConnectionStatus::Connected, true), "Connected");
    assert_eq!(connection_label(ConnectionStatus::Waiting, true), "Waiting");
    assert_eq!(connection_label(ConnectionStatus::Waiting, false), "Waiting for device");
    assert_eq!(connection_label(ConnectionStatus::Disconnected, true), "No mapping");
    assert_eq!(connection_label(ConnectionStatus::Disconnected, false), "Disconnected");
    assert_eq!(port_label(""), "(none)");
    assert_eq!(port_label("IAC Bus 1"), "IAC Bus 1");
    assert_eq!(learn_label(true), "Stop Learning");
    assert_eq!(learn_label(false), "Learn");
    assert_eq!(controller_header("Deck", "X1"), "Deck (X1)");
}

#[test]
fn keyed_records_in_a_manager() {
    let mut m: FixtureManager<Keyed<&str>> = FixtureManager::from_fixtures(vec![Keyed::new(9, "par"), Keyed::new(4, "bar")]);
    assert_eq!(m.next_id, 10);
    let (id, name) = m.reserve();
    assert_eq!((id, name.as_str()), (10, "Fixture 10"));
    m.insert(Keyed::new(id, "wash"));
    m.remove(9);
    let ids: Vec<u32> = m.fixtures.iter().map(|f| f.record_id()).collect();
    assert_eq!(ids, vec![4, 10]);
    assert_eq!(m.fixtures[1].record, "wash");
}
