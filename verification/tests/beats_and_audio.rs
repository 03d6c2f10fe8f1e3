use lightbeat::clock::{ClockState, LinkStatusState, BEAT_FLASH_DURATION_MS};
use lightbeat::nodes::audio::{
    analyzer_label, fit_histories, input_available, push_bounded, AudioInputWidget, AudioNotice,
    ENVELOPE_BUFFER_SIZE,
};
use lightbeat::ports::{NodeId, PortDef, PortType};

#[test]
fn clock_counts_and_drains_beats() {
    let mut s = ClockState::new();
    assert!(s.drain_trigger_outputs().is_empty());
    s.on_beat(1000);
    s.on_beat(1010);
    s.on_beat(1020);
    assert_eq!(s.drain_trigger_outputs(), vec![0, 0, 0]);
    assert_eq!(s.pending_beats, 0);
    assert!(s.drain_trigger_outputs().is_empty());
}

#[test]
fn clock_play_output_follows_transport() {
    let mut s = ClockState::new();
    assert!(!s.read_value_output(1));
    s.on_transport_change(true);
    assert!(s.read_value_output(1));
    assert!(!s.read_value_output(0));
    assert!(!s.read_value_output(2));
}

#[test]
fn beat_flash_lasts_the_window() {
    let mut s = ClockState::new();
    assert!(!s.beat_flash(0));
    s.on_transport_change(true);
    s.on_beat(500);
    assert!(s.beat_flash(500));
    assert!(s.beat_flash(500 + BEAT_FLASH_DURATION_MS - 1));
    assert!(!s.beat_flash(500 + BEAT_FLASH_DURATION_MS));
    // a beat stamped later than "now" counts as just seen
    assert!(s.beat_flash(400));
}

#[test]
fn stopping_transport_darkens_the_led() {
    let mut s = LinkStatusState::new();
    s.on_transport_change(true);
    s.on_beat(100);
    assert!(s.beat_flash(120));
    s.on_transport_change(false);
    assert!(!s.playing);
    assert_eq!(s.last_beat_ms, None);
    assert!(!s.beat_flash(120));

    let mut c = ClockState::new();
    c.on_beat(100);
    c.on_transport_change(false);
    assert!(!c.beat_flash(100));
    // pending beats survive a stop
    assert_eq!(c.pending_beats, 1);
}

#[test]
fn envelope_history_keeps_the_newest() {
    let mut h: Vec<u32> = Vec::new();
    for v in 0..5u32 {
        push_bounded(&mut h, v, 3);
    }
    assert_eq!(h, vec![2, 3, 4]);
    let mut big: Vec<u32> = (0..ENVELOPE_BUFFER_SIZE as u32).collect();
    push_bounded(&mut big, 999, ENVELOPE_BUFFER_SIZE);
    assert_eq!(big.len(), ENVELOPE_BUFFER_SIZE);
    assert_eq!(big[0], 1);
    assert_eq!(*big.last().unwrap(), 999);
}

#[test]
fn histories_fit_the_analyzer_count() {
    let mut h: Vec<Vec<u8>> = vec![vec![1], vec![2, 2]];
    fit_histories(&mut h, 4);
    assert_eq!(h, vec![vec![1], vec![2, 2], vec![], vec![]]);
    fit_histories(&mut h, 1);
    assert_eq!(h, vec![vec![1]]);
}

#[test]
fn audio_outputs_are_prefixed_per_analyzer() {
    let mut w = AudioInputWidget::new(NodeId(7), (), ());
    assert_eq!(w.type_label(), "Audio Input");
    assert!(w.ui_inputs().is_empty());
    let analyzers = vec![
        vec![PortDef::new("beat", PortType::Logic), PortDef::new("bpm", PortType::Untyped)],
        vec![PortDef::new("peak", PortType::Untyped)],
    ];
    w.set_analyzer_outputs(&analyzers);
    let outs: Vec<String> = w.ui_outputs().iter().map(|p| p.def.name.clone()).collect();
    assert_eq!(outs, vec!["a0.beat", "a0.bpm", "a1.peak"]);
    assert_eq!(w.ui_outputs()[0].def.port_type, PortType::Logic);
    assert_eq!(analyzer_label(12), "a12");
}

#[test]
fn audio_binding_reports_changes_only() {
    let mut w = AudioInputWidget::new(NodeId(7), (), ());
    assert!(!w.rebind_to(0));
    assert!(w.select_input(3));
    assert_eq!(w.input_id, 3);
    assert!(!w.sync_from_display(3, vec![PortDef::new("a0.peak", PortType::Untyped)]));
    assert_eq!(w.outputs.len(), 1);
    assert!(w.sync_from_display(5, Vec::new()));
    assert_eq!(w.bound_input, 5);
}

#[test]
fn audio_restore_and_notices() {
    let mut w = AudioInputWidget::new(NodeId(1), (), ());
    assert_eq!(w.notice(2), Some(AudioNotice::NoInputSelected));
    assert!(!w.restore_input_id(None));
    assert!(w.restore_input_id(Some(0x1_0000_0004)));
    assert_eq!(w.input_id, 4);
    assert_eq!(w.notice(0), Some(AudioNotice::NoAnalyzers));
    assert_eq!(w.notice(3), None);
    assert_eq!(AudioNotice::NoInputSelected.text(), "No input selected");
    assert_eq!(AudioNotice::NoAnalyzers.text(), "No analyzers");
}

#[test]
fn inputs_bound_elsewhere_are_hidden() {
    assert!(input_available(None, NodeId(4)));
    assert!(input_available(Some(4), NodeId(4)));
    assert!(!input_available(Some(5), NodeId(4)));
}
