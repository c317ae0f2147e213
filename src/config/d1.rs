//! The one-dimensional simulation description.

use vstd::prelude::*;

verus! {

/// The frame rate of a movie when none is configured, in Hz.
pub fn default_framerate() -> (r: u16)
    ensures
        r == 60,
{
    60
}

/// How many steps lie between two captured frames when none is configured.
pub fn default_graph_period() -> (r: u16)
    ensures
        r == 16,
{
    16
}

/// The movie resolution in pixels (width, height) when none is configured.
pub fn default_resolution() -> (r: (u16, u16))
    ensures
        r == (1920u16, 1080u16),
{
    (1920, 1080)
}

/// How many snapshots a movie buffers before it hands them to the renderer.
pub fn default_snapshot_buffer_len() -> (r: u16)
    ensures
        r == 47,
{
    47
}

/// A movie of the electric and magnetic fields over the whole simulation.
pub struct Movie {
    /// The frame rate of the resulting movie, in Hz.
    pub framerate: u16,
    /// How often a frame is captured, in simulation steps.
    pub graph_period: u16,
    /// The magnitude shown on the y axis, as the bit pattern of an IEEE-754
    /// single-precision number; only the renderer reads it.
    pub range_bits: u32,
    /// Where the movie is written at the end of the simulation.
    pub path: String,
    /// The movie resolution in pixels (width, height).
    pub resolution: (u16, u16),
    /// How many snapshots are held before they are handed to the renderer.
    pub snapshot_buffer_len: u16,
}

/// An observer that captures data from the simulation.
pub enum Oscilloscope {
    /// Record a movie of the simulation.
    Movie(Movie),
}

impl Oscilloscope {
    /// Steps between two captures.
    pub open spec fn period(&self) -> nat {
        match self {
            Oscilloscope::Movie(m) => m.graph_period as nat,
        }
    }

    /// How many snapshots may wait before they are dispatched.
    pub open spec fn capacity(&self) -> nat {
        match self {
            Oscilloscope::Movie(m) => m.snapshot_buffer_len as nat,
        }
    }

    /// An equal configuration that owns its own strings.
    pub fn duplicate(&self) -> (r: Oscilloscope)
        ensures
            r == *self,
    {
        match self {
            Oscilloscope::Movie(m) => Oscilloscope::Movie(
                Movie {
                    framerate: m.framerate,
                    graph_period: m.graph_period,
                    range_bits: m.range_bits,
                    path: m.path.clone(),
                    resolution: m.resolution,
                    snapshot_buffer_len: m.snapshot_buffer_len,
                },
            ),
        }
    }
}

/// A signal placed into the simulation space.
pub struct Signal {
    /// The cell that the signal is added to.
    pub location: usize,
    /// Where the signal's values are stored.
    pub path: String,
}

/// A one-dimensional simulation.
pub struct Simulation {
    /// The oscilloscopes that observe the simulation.
    pub oscilloscopes: Vec<Oscilloscope>,
    /// The signals injected into the simulation space.
    pub signals: Vec<Signal>,
    /// How many cells the universe has.
    pub size: u64,
    /// How many steps the universe lasts.
    pub time: u64,
}

} // verus!
