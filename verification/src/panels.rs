//! State of small panels outside the node canvas: the example widget, the
//! DMX monitor grid, fader orientation, and the labels of the controller
//! list.
use vstd::prelude::*;
use vstd::string::StrSliceExecFns;
use crate::text::{decimal_chars, decimal};

verus! {

/// A demo panel: a label and a click counter.
pub struct ExampleWidget {
    pub label: String,
    pub counter: u32,
}

impl ExampleWidget {
    pub fn new() -> (r: Self)
        ensures
            r.label@ == "Hello, LightBeat!"@,
            r.counter == 0,
    {
        ExampleWidget { label: String::from_str("Hello, LightBeat!"), counter: 0 }
    }

    /// The button was clicked: count it and say how often.
    pub fn click(&mut self)
        requires
            old(self).counter < u32::MAX,
        ensures
            final(self).counter == old(self).counter + 1,
            final(self).label@ == "Clicked "@ + decimal_chars(final(self).counter as nat) + " times"@,
    {
        self.counter = self.counter + 1;
        let mut s = String::from_str("Clicked ");
        let d = decimal(self.counter as usize);
        s.append(d.as_str());
        s.append(" times");
        self.label = s;
    }
}

/// Direction a fader moves in.
#[derive(Clone, Copy, Debug, PartialEq, Eq, Structural)]
pub enum Orientation {
    Vertical,
    Horizontal,
}

/// Columns and rows of the DMX monitor grid; one cell per channel.
pub const MONITOR_COLS: usize = 32;

pub const MONITOR_ROWS: usize = 16;

pub const CHANNEL_COUNT: usize = 512;

/// The channel shown in grid cell (`col`, `row`), row by row.
pub open spec fn cell_channel(col: int, row: int) -> Option<int> {
    if 0 <= col < 32 && 0 <= row < 16 {
        Some(row * 32 + col)
    } else {
        None
    }
}

/// Live view of one DMX universe. `K` identifies a universe.
pub struct DmxMonitor<K> {
    pub hovered_channel: Option<usize>,
    pub selected_key: Option<K>,
}

impl<K> DmxMonitor<K> {
    pub fn new() -> (r: Self)
        ensures
            r.hovered_channel.is_none(),
            r.selected_key.is_none(),
    {
        DmxMonitor { hovered_channel: None, selected_key: None }
    }

    /// The channel under grid cell (`col`, `row`), if the cell exists.
    pub fn grid_channel(col: usize, row: usize) -> (r: Option<usize>)
        ensures
            match r {
                Some(c) => cell_channel(col as int, row as int) == Some(c as int) && c < CHANNEL_COUNT,
                None => cell_channel(col as int, row as int).is_none(),
            },
    {
        if col < MONITOR_COLS && row < MONITOR_ROWS {
            Some(row * MONITOR_COLS + col)
        } else {
            None
        }
    }

    /// Column and row of channel `ch`; inverse of [`Self::grid_channel`].
    pub fn channel_cell(ch: usize) -> (r: (usize, usize))
        requires
            ch < CHANNEL_COUNT,
        ensures
            cell_channel(r.0 as int, r.1 as int) == Some(ch as int),
    {
        (ch % MONITOR_COLS, ch / MONITOR_COLS)
    }
}

/// Connection state of a hardware controller.
#[derive(Clone, Copy, Debug, PartialEq, Eq, Structural)]
pub enum ConnectionStatus {
    Connected,
    Waiting,
    Disconnected,
}

/// Status badge of a controller: MIDI controllers wait for a port mapping,
/// USB ones for their device.
pub open spec fn connection_label_spec(status: ConnectionStatus, is_midi: bool) -> Seq<char> {
    match status {
        ConnectionStatus::Connected => "Connected"@,
        ConnectionStatus::Waiting => if is_midi { "Waiting"@ } else { "Waiting for device"@ },
        ConnectionStatus::Disconnected => if is_midi { "No mapping"@ } else { "Disconnected"@ },
    }
}

pub fn connection_label(status: ConnectionStatus, is_midi: bool) -> (r: &'static str)
    ensures
        r@ == connection_label_spec(status, is_midi),
{
    match status {
        ConnectionStatus::Connected => "Connected",
        ConnectionStatus::Waiting => if is_midi { "Waiting" } else { "Waiting for device" },
        ConnectionStatus::Disconnected => if is_midi { "No mapping" } else { "Disconnected" },
    }
}

/// A MIDI port as the picker shows it: "(none)" when no port is set.
pub fn port_label(port: &str) -> (r: String)
    ensures
        port@.len() == 0 ==> r@ == "(none)"@,
        port@.len() != 0 ==> r@ == port@,
{
    if port.unicode_len() == 0 {
        String::from_str("(none)")
    } else {
        String::from_str(port)
    }
}

/// Label of the learn toggle.
pub fn learn_label(learning: bool) -> (r: &'static str)
    ensures
        learning ==> r@ == "Stop Learning"@,
        !learning ==> r@ == "Learn"@,
{
    if learning { "Stop Learning" } else { "Learn" }
}

/// Header of a controller's section: "{name} ({kind})".
pub fn controller_header(name: &str, kind_label: &str) -> (r: String)
    ensures
        r@ == name@ + " ("@ + kind_label@ + ")"@,
{
    let mut s = String::from_str(name);
    s.append(" (");
    s.append(kind_label);
    s.append(")");
    s
}

} // verus!
