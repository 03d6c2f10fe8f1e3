//! The audio-input node: which input it is bound to, the output ports it
//! mirrors from that input's analyzers, and the rolling history buffers
//! behind its inline plots. Sample values and meters stay with the caller.
use vstd::prelude::*;
use crate::ports::{NodeId, PortDef, UiPortDef, PortView, port_views, def_views, ui_ports_from_defs};
use crate::text::{decimal_chars, with_number};
use crate::nodes::{grouped_port_views, grouped_defs};

verus! {

/// Envelope samples kept per analyzer (about five seconds at 60 fps).
pub const ENVELOPE_BUFFER_SIZE: usize = 300;

pub const AUDIO_INPUT_DESCRIPTION: &'static str = "Outputs analyzer values from the selected audio input. Add analyzers in the Audio Inputs window.";

/// The last `cap` items of `s` (all of them when there are fewer).
pub open spec fn keep_last<T>(s: Seq<T>, cap: nat) -> Seq<T> {
    if s.len() > cap {
        s.subrange(s.len() - cap, s.len() as int)
    } else {
        s
    }
}

/// Appends `v` and drops the oldest items beyond `cap`.
pub fn push_bounded<T>(history: &mut Vec<T>, v: T, cap: usize)
    ensures
        final(history)@ == keep_last(old(history)@.push(v), cap as nat),
{
    history.push(v);
    while history.len() > cap
        invariant
            history@ == keep_last(old(history)@.push(v), history@.len() as nat),
            history@.len() >= cap || history@.len() == old(history)@.len() + 1,
        decreases history.len(),
    {
        let ghost before = history@;
        history.remove(0);
        proof {
            let full = old(history)@.push(v);
            assert(history@ =~= before.subrange(1, before.len() as int));
            assert(history@ =~= full.subrange(full.len() - history@.len(), full.len() as int));
        }
    }
    proof {
        let full = old(history)@.push(v);
        if history@.len() < full.len() {
            assert(keep_last(full, cap as nat) == keep_last(full, history@.len() as nat));
        } else {
            assert(history@ =~= full);
        }
    }
}

/// One history per analyzer: keeps the first `n` histories and adds empty
/// ones up to `n`.
pub fn fit_histories<T>(histories: &mut Vec<Vec<T>>, n: usize)
    ensures
        final(histories)@.len() == n,
        forall|i: int| 0 <= i < n && i < old(histories)@.len() ==> #[trigger] final(histories)@[i] == old(
            histories,
        )@[i],
        forall|i: int| old(histories)@.len() <= i < n ==> #[trigger] final(histories)@[i]@.len() == 0,
{
    histories.truncate(n);
    while histories.len() < n
        invariant
            histories@.len() <= n,
            forall|i: int|
                0 <= i < histories@.len() && i < old(histories)@.len() ==> #[trigger] histories@[i] == old(
                    histories,
                )@[i],
            forall|i: int| old(histories)@.len() <= i < histories@.len() ==> #[trigger] histories@[i]@.len() == 0,
            histories@.len() >= n || histories@.len() >= old(histories)@.len(),
        decreases n - histories.len(),
    {
        histories.push(Vec::new());
    }
}

/// Label of the analyzer at `i`: "a{i}".
pub fn analyzer_label(i: usize) -> (r: String)
    ensures
        r@ == "a"@ + decimal_chars(i as nat),
{
    with_number("a", i)
}

/// Output names of an input with the given analyzers: each analyzer's
/// outputs prefixed with "a{index}." (0-based), analyzer after analyzer.
pub open spec fn analyzer_port_views(analyzers: Seq<Vec<PortDef>>) -> Seq<PortView> {
    grouped_port_views("a"@, 0, analyzers)
}

/// Whether an input can be picked by node `node`: it is free, or bound to
/// this very node.
pub open spec fn available_spec(bound_to: Option<u64>, node: NodeId) -> bool {
    match bound_to {
        None => true,
        Some(other) => other == node.0,
    }
}

pub fn input_available(bound_to: Option<u64>, node: NodeId) -> (r: bool)
    ensures
        r == available_spec(bound_to, node),
{
    match bound_to {
        None => true,
        Some(other) => other == node.0,
    }
}

/// What the node shows in place of its meters.
#[derive(Clone, Copy, Debug, PartialEq, Eq, Structural)]
pub enum AudioNotice {
    NoInputSelected,
    NoAnalyzers,
}

impl AudioNotice {
    pub fn text(&self) -> (r: &'static str)
        ensures
            *self == AudioNotice::NoInputSelected ==> r@ == "No input selected"@,
            *self == AudioNotice::NoAnalyzers ==> r@ == "No analyzers"@,
    {
        match self {
            AudioNotice::NoInputSelected => "No input selected",
            AudioNotice::NoAnalyzers => "No analyzers",
        }
    }
}

/// Node that outputs the analyzer values of one audio input. `A` is the
/// handle to the registry of audio inputs, `S` the state shared with the
/// processing side.
pub struct AudioInputWidget<S, A> {
    pub id: NodeId,
    pub shared: S,
    /// 0 means no input selected.
    pub input_id: u32,
    /// Names and types of the outputs, mirrored from the processing side.
    pub outputs: Vec<PortDef>,
    pub audio: A,
    /// The input this node last registered itself as bound to.
    pub bound_input: u32,
}

impl<S, A> AudioInputWidget<S, A> {
    pub fn new(id: NodeId, shared: S, audio: A) -> (r: Self)
        ensures
            r.id == id,
            r.shared == shared,
            r.audio == audio,
            r.input_id == 0,
            r.outputs@.len() == 0,
            r.bound_input == 0,
    {
        AudioInputWidget { id, shared, input_id: 0, outputs: Vec::new(), audio, bound_input: 0 }
    }

    pub fn node_id(&self) -> (r: NodeId)
        ensures
            r == self.id,
    {
        self.id
    }

    /// The node can be resized on the canvas.
    pub fn resizable(&self) -> (r: bool)
        ensures
            r == true,
    {
        true
    }

    pub fn type_label(&self) -> (r: &'static str)
        ensures
            r@ == "Audio Input"@,
    {
        "Audio Input"
    }

    pub fn title(&self) -> (r: &'static str)
        ensures
            r@ == "Audio Input"@,
    {
        "Audio Input"
    }

    pub fn description(&self) -> (r: &'static str)
        ensures
            r@ == AUDIO_INPUT_DESCRIPTION@,
    {
        AUDIO_INPUT_DESCRIPTION
    }

    pub fn ui_inputs(&self) -> (r: Vec<UiPortDef>)
        ensures
            r@.len() == 0,
    {
        Vec::new()
    }

    pub fn ui_outputs(&self) -> (r: Vec<UiPortDef>)
        ensures
            port_views(r@) == def_views(self.outputs@),
    {
        ui_ports_from_defs(&self.outputs)
    }

    /// Records `new_id` as the bound input; returns whether the binding
    /// changed, that is whether the registry must be told.
    pub fn rebind_to(&mut self, new_id: u32) -> (changed: bool)
        ensures
            final(self).shared == old(self).shared,
            changed == (new_id != old(self).bound_input),
            final(self).bound_input == new_id,
            final(self).input_id == old(self).input_id,
            final(self).outputs@ == old(self).outputs@,
            final(self).id == old(self).id,
    {
        if new_id == self.bound_input {
            return false;
        }
        self.bound_input = new_id;
        true
    }

    /// The inspector picked an input (0 for none): it becomes the selected
    /// and bound input. Returns whether the registry must be told.
    pub fn select_input(&mut self, input_id: u32) -> (changed: bool)
        ensures
            final(self).shared == old(self).shared,
            final(self).input_id == input_id,
            final(self).bound_input == input_id,
            changed == (input_id != old(self).bound_input),
            final(self).outputs@ == old(self).outputs@,
            final(self).id == old(self).id,
    {
        self.input_id = input_id;
        self.rebind_to(input_id)
    }

    /// Takes over what the processing side reports: the input and its
    /// outputs. Returns whether the registry must be told of a new binding.
    pub fn sync_from_display(&mut self, input_id: u32, outputs: Vec<PortDef>) -> (changed: bool)
        ensures
            final(self).shared == old(self).shared,
            final(self).input_id == input_id,
            final(self).outputs@ == outputs@,
            final(self).bound_input == input_id,
            changed == (input_id != old(self).bound_input),
            final(self).id == old(self).id,
    {
        self.input_id = input_id;
        self.outputs = outputs;
        self.rebind_to(input_id)
    }

    /// Restores the selected input from saved data (the saved number is
    /// truncated to 32 bits); returns whether an input is selected, that is
    /// whether its analyzers should be looked up.
    pub fn restore_input_id(&mut self, saved_id: Option<u64>) -> (selected: bool)
        ensures
            final(self).shared == old(self).shared,
            final(self).input_id == (match saved_id {
                Some(v) => (v % 0x1_0000_0000) as u32,
                None => old(self).input_id,
            }),
            selected == (final(self).input_id != 0),
            final(self).outputs@ == old(self).outputs@,
            final(self).bound_input == old(self).bound_input,
            final(self).id == old(self).id,
    {
        if let Some(v) = saved_id {
            self.input_id = (v % 0x1_0000_0000) as u32;
        }
        self.input_id != 0
    }

    /// Lays the outputs out as the processing side does: every analyzer's
    /// outputs, prefixed "a{index}.".
    pub fn set_analyzer_outputs(&mut self, analyzers: &Vec<Vec<PortDef>>)
        ensures
            final(self).shared == old(self).shared,
            def_views(final(self).outputs@) == analyzer_port_views(analyzers@),
            final(self).input_id == old(self).input_id,
            final(self).bound_input == old(self).bound_input,
            final(self).id == old(self).id,
    {
        let _count = analyzers.len();
        self.outputs = grouped_defs("a", 0, analyzers);
    }

    /// What to show in place of the meters, if anything: no input
    /// selected, or an input without analyzers.
    pub fn notice(&self, analyzer_count: usize) -> (r: Option<AudioNotice>)
        ensures
            self.input_id == 0 ==> r == Some(AudioNotice::NoInputSelected),
            self.input_id != 0 && analyzer_count == 0 ==> r == Some(AudioNotice::NoAnalyzers),
            self.input_id != 0 && analyzer_count != 0 ==> r is None,
    {
        if self.input_id == 0 {
            Some(AudioNotice::NoInputSelected)
        } else if analyzer_count == 0 {
            Some(AudioNotice::NoAnalyzers)
        } else {
            None
        }
    }
}

} // verus!
