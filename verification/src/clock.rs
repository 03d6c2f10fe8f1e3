//! Beat bookkeeping of the clock and link-status nodes: the transport
//! state, the beats not yet handed to the graph, and the beat-flash window.
//! Times are milliseconds on a clock the caller chooses; the tempo, a
//! floating-point number, stays with the caller.
use vstd::prelude::*;

verus! {

/// How long the beat LED stays lit after a beat, in milliseconds.
pub const BEAT_FLASH_DURATION_MS: u64 = 80;

/// Milliseconds since `last`, or 0 when `last` lies after `now_ms`.
pub open spec fn elapsed_ms(last: u64, now_ms: u64) -> int {
    if now_ms >= last {
        now_ms - last
    } else {
        0
    }
}

/// Whether the beat LED is lit at `now_ms`: a beat was seen, and fewer
/// than [`BEAT_FLASH_DURATION_MS`] milliseconds have passed since.
pub open spec fn flash_on(last: Option<u64>, now_ms: u64) -> bool {
    match last {
        Some(t) => elapsed_ms(t, now_ms) < BEAT_FLASH_DURATION_MS,
        None => false,
    }
}

fn beat_flash_at(last: Option<u64>, now_ms: u64) -> (r: bool)
    ensures
        r == flash_on(last, now_ms),
{
    match last {
        Some(t) => {
            let elapsed: u64 = if now_ms >= t { now_ms - t } else { 0 };
            elapsed < BEAT_FLASH_DURATION_MS
        },
        None => false,
    }
}

/// Transport and beat state of the clock node.
pub struct ClockState {
    pub playing: bool,
    pub num_peers: usize,
    /// When the last beat arrived; cleared when the transport stops.
    pub last_beat_ms: Option<u64>,
    /// Beats that arrived since the graph last drained them.
    pub pending_beats: u32,
}

impl ClockState {
    pub fn new() -> (r: Self)
        ensures
            !r.playing,
            r.num_peers == 0,
            r.last_beat_ms is None,
            r.pending_beats == 0,
    {
        ClockState { playing: false, num_peers: 0, last_beat_ms: None, pending_beats: 0 }
    }

    /// A beat arrived at `now_ms`: remember its time and count it.
    pub fn on_beat(&mut self, now_ms: u64)
        requires
            old(self).pending_beats < u32::MAX,
        ensures
            final(self).last_beat_ms == Some(now_ms),
            final(self).pending_beats == old(self).pending_beats + 1,
            final(self).playing == old(self).playing,
            final(self).num_peers == old(self).num_peers,
    {
        self.last_beat_ms = Some(now_ms);
        self.pending_beats = self.pending_beats + 1;
    }

    /// The transport started or stopped; stopping forgets the last beat.
    pub fn on_transport_change(&mut self, playing: bool)
        ensures
            final(self).playing == playing,
            final(self).last_beat_ms == (if playing { old(self).last_beat_ms } else { None }),
            !playing ==> forall|t: u64| !flash_on(final(self).last_beat_ms, t),
            final(self).pending_beats == old(self).pending_beats,
            final(self).num_peers == old(self).num_peers,
    {
        self.playing = playing;
        if !playing {
            self.last_beat_ms = None;
        }
    }

    /// Hands out the pending beats, one trigger on output 0 ("beat") for
    /// each, and resets the count.
    pub fn drain_trigger_outputs(&mut self) -> (r: Vec<usize>)
        ensures
            r@ == Seq::new(old(self).pending_beats as nat, |i: int| 0usize),
            final(self).pending_beats == 0,
            final(self).playing == old(self).playing,
            final(self).num_peers == old(self).num_peers,
            final(self).last_beat_ms == old(self).last_beat_ms,
    {
        let count = self.pending_beats;
        self.pending_beats = 0;
        let mut v: Vec<usize> = Vec::new();
        let mut k: u32 = 0;
        while k < count
            invariant
                k <= count,
                v@ == Seq::new(k as nat, |i: int| 0usize),
            decreases count - k,
        {
            v.push(0);
            k = k + 1;
            proof {
                assert(v@ =~= Seq::new(k as nat, |i: int| 0usize));
            }
        }
        v
    }

    /// Value of an output: output 1 ("play") is high (1.0) while the
    /// transport plays; every other output reads low (0.0).
    pub fn read_value_output(&self, port_index: usize) -> (r: bool)
        ensures
            r == (port_index == 1 && self.playing),
    {
        port_index == 1 && self.playing
    }

    /// Whether the beat LED is lit at `now_ms`.
    pub fn beat_flash(&self, now_ms: u64) -> (r: bool)
        ensures
            r == flash_on(self.last_beat_ms, now_ms),
    {
        beat_flash_at(self.last_beat_ms, now_ms)
    }
}

/// Transport and beat state of the link-status node.
pub struct LinkStatusState {
    pub playing: bool,
    pub num_peers: usize,
    pub last_beat_ms: Option<u64>,
}

impl LinkStatusState {
    pub fn new() -> (r: Self)
        ensures
            !r.playing,
            r.num_peers == 0,
            r.last_beat_ms is None,
    {
        LinkStatusState { playing: false, num_peers: 0, last_beat_ms: None }
    }

    pub fn on_beat(&mut self, now_ms: u64)
        ensures
            final(self).last_beat_ms == Some(now_ms),
            final(self).playing == old(self).playing,
            final(self).num_peers == old(self).num_peers,
    {
        self.last_beat_ms = Some(now_ms);
    }

    pub fn on_transport_change(&mut self, playing: bool)
        ensures
            final(self).playing == playing,
            final(self).last_beat_ms == (if playing { old(self).last_beat_ms } else { None }),
            !playing ==> forall|t: u64| !flash_on(final(self).last_beat_ms, t),
            final(self).num_peers == old(self).num_peers,
    {
        self.playing = playing;
        if !playing {
            self.last_beat_ms = None;
        }
    }

    pub fn beat_flash(&self, now_ms: u64) -> (r: bool)
        ensures
            r == flash_on(self.last_beat_ms, now_ms),
    {
        beat_flash_at(self.last_beat_ms, now_ms)
    }
}

} // verus!
