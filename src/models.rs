//! Signals, snapshots, oscilloscopes and the universe that owns them.

use vstd::prelude::*;

use crate::config::d1;
use crate::field::{
    inject, is_cell_rule, is_sum_rule, placed_within, run_fields, step_fields, update_electric,
    update_magnetic,
};

verus! {

/// Why a universe or one of its parts could not be built.
#[derive(Debug, PartialEq, Eq)]
pub enum SetupError {
    /// A signal is placed outside the field.
    SignalOutOfBounds { location: usize, size: u64 },
    /// An oscilloscope asks for a capture period of zero steps.
    ZeroGraphPeriod,
    /// The field is larger than this machine can address.
    SizeTooLarge { size: u64 },
    /// The number of value series differs from the number of configured signals.
    SeriesCountMismatch { signals: usize, series: usize },
    /// The number of frame directories differs from the number of oscilloscopes.
    FrameDirCountMismatch { oscilloscopes: usize, frame_dirs: usize },
}

/// A signal in space: the values that are added to one cell, one per step.
pub struct Signal<V> {
    /// The cell the signal is added to.
    pub location: usize,
    /// The value added at each step; steps past the end add nothing.
    pub values: Vec<V>,
}

impl<V> Signal<V> {
    /// The value injected at step `t`, if the series reaches that far.
    pub open spec fn spec_value_at(&self, t: int) -> Option<V> {
        if 0 <= t < self.values@.len() {
            Some(self.values@[t])
        } else {
            None
        }
    }
}

impl<V: Copy> Signal<V> {
    /// Places the given values at the configured location of a field of `size` cells.
    pub fn new(config: &d1::Signal, values: Vec<V>, size: u64) -> (r: Result<Signal<V>, SetupError>)
        ensures
            (config.location as u64) < size ==> r == Ok::<Signal<V>, SetupError>(
                Signal { location: config.location, values },
            ),
            (config.location as u64) >= size ==> r == Err::<Signal<V>, SetupError>(
                SetupError::SignalOutOfBounds { location: config.location, size },
            ),
    {
        if (config.location as u64) < size {
            Ok(Signal { location: config.location, values })
        } else {
            Err(SetupError::SignalOutOfBounds { location: config.location, size })
        }
    }

    /// The value injected at step `t`, or none past the end of the series.
    pub fn value_at(&self, t: u64) -> (r: Option<V>)
        ensures
            r == self.spec_value_at(t as int),
    {
        if t < self.values.len() as u64 {
            Some(self.values[t as usize])
        } else {
            None
        }
    }
}

/// A recorded copy of both fields at one step.
pub struct Snapshot<V> {
    /// The step this snapshot records.
    pub timestamp: u64,
    /// The electric field at that step.
    pub ex: Vec<V>,
    /// The magnetic field at that step.
    pub hy: Vec<V>,
}

impl<V> View for Snapshot<V> {
    type V = (u64, Seq<V>, Seq<V>);

    open spec fn view(&self) -> (u64, Seq<V>, Seq<V>) {
        (self.timestamp, self.ex@, self.hy@)
    }
}

/// The views of a sequence of snapshots.
pub open spec fn frames<V>(s: Seq<Snapshot<V>>) -> Seq<(u64, Seq<V>, Seq<V>)> {
    s.map_values(|x: Snapshot<V>| x@)
}

/// The steps of a sequence of snapshot views.
pub open spec fn steps_of<V>(s: Seq<(u64, Seq<V>, Seq<V>)>) -> Seq<u64> {
    s.map_values(|x: (u64, Seq<V>, Seq<V>)| x.0)
}

/// A copy of a field that no longer shares storage with it.
fn copy_cells<V: Copy>(v: &Vec<V>) -> (r: Vec<V>)
    ensures
        r@ == v@,
{
    let mut r: Vec<V> = Vec::with_capacity(v.len());
    let mut i: usize = 0;
    while i < v.len()
        invariant
            i <= v@.len(),
            r@ == v@.subrange(0, i as int),
        decreases v@.len() - i,
    {
        r.push(v[i]);
        i = i + 1;
    }
    assert(r@ =~= v@);
    r
}

impl<V: Copy> Snapshot<V> {
    /// Captures both fields at step `timestamp`.
    pub fn capture(timestamp: u64, ex: &Vec<V>, hy: &Vec<V>) -> (r: Snapshot<V>)
        ensures
            r@ == (timestamp, ex@, hy@),
    {
        Snapshot { timestamp, ex: copy_cells(ex), hy: copy_cells(hy) }
    }
}

/// The number of the frame that the snapshot of step `timestamp` becomes under a
/// capture period of `graph_period` steps: frames are numbered in capture order,
/// so their file names sort in time order whatever order they are rendered in.
pub fn frame_index(timestamp: u64, graph_period: u16) -> (r: u64)
    requires
        graph_period > 0,
    ensures
        r == timestamp / (graph_period as u64),
{
    timestamp / (graph_period as u64)
}

/// What a movie oscilloscope hands to the video encoder once it is closed.
pub struct EncodeRequest {
    /// The frame rate of the movie, in Hz.
    pub framerate: u16,
    /// The directory that holds the rendered frames.
    pub frame_dir: String,
    /// Where the movie is written.
    pub path: String,
}

/// `req` encodes the frames of `o` at its configured frame rate into its configured path.
pub open spec fn encodes<V: Copy>(req: EncodeRequest, o: Oscilloscope<V>) -> bool {
    &&& req.frame_dir@ == o.spec_frame_dir()
    &&& match o.spec_config() {
        d1::Oscilloscope::Movie(m) => req.framerate == m.framerate && req.path@ == m.path@,
    }
}

/// An oscilloscope: it captures snapshots on a fixed period, holds a bounded
/// number of them, and dispatches them in batches to be rendered.
pub struct Oscilloscope<V> {
    /// The oscilloscope's configuration.
    config: d1::Oscilloscope,
    /// The scratch directory that the rendered frames are written to.
    frame_dir: String,
    /// The snapshots captured and not yet dispatched, in capture order.
    snapshots: Vec<Snapshot<V>>,
    /// Whether the oscilloscope has been closed.
    closed: bool,
    /// The steps captured so far, in order.
    captured: Ghost<Seq<u64>>,
    /// The steps dispatched so far, in order.
    dispatched: Ghost<Seq<u64>>,
}

impl<V: Copy> Oscilloscope<V> {
    /// The oscilloscope's configuration.
    pub closed spec fn spec_config(&self) -> d1::Oscilloscope {
        self.config
    }

    /// The scratch directory of the rendered frames.
    pub closed spec fn spec_frame_dir(&self) -> Seq<char> {
        self.frame_dir@
    }

    /// The snapshots waiting to be dispatched, in capture order.
    pub closed spec fn pending(&self) -> Seq<(u64, Seq<V>, Seq<V>)> {
        frames(self.snapshots@)
    }

    /// Whether the oscilloscope has been closed.
    pub closed spec fn is_closed(&self) -> bool {
        self.closed
    }

    /// Every step captured so far, in order.
    pub closed spec fn captured(&self) -> Seq<u64> {
        self.captured@
    }

    /// Every step handed to the renderer so far, in order.
    pub closed spec fn dispatched(&self) -> Seq<u64> {
        self.dispatched@
    }

    /// Steps between two captures.
    pub open spec fn period(&self) -> nat {
        self.spec_config().period()
    }

    /// How many snapshots may wait before they are dispatched.
    pub open spec fn capacity(&self) -> nat {
        self.spec_config().capacity()
    }

    /// The captures are those dispatched followed by those pending; the buffer
    /// stays within its capacity; a closed oscilloscope holds nothing.
    pub open spec fn wf(&self) -> bool {
        &&& self.accounted()
        &&& self.pending().len() <= self.capacity()
    }

    /// The captures are those dispatched followed by those pending, and a closed
    /// oscilloscope holds nothing.
    pub open spec fn accounted(&self) -> bool {
        &&& self.period() > 0
        &&& self.captured() == self.dispatched() + steps_of(self.pending())
        &&& self.is_closed() ==> self.pending().len() == 0
    }

    /// Whether an observation at step `t` is captured.
    pub open spec fn captures_at(&self, t: u64) -> bool {
        t as nat % self.period() == 0
    }

    /// Whether an observation at step `t` fills the buffer past its capacity.
    pub open spec fn flushes_at(&self, t: u64) -> bool {
        self.captures_at(t) && self.pending().len() >= self.capacity()
    }

    /// The snapshots waiting after an observation of `ex` and `hy` at step `t`.
    pub open spec fn pending_after(&self, t: u64, ex: Seq<V>, hy: Seq<V>) -> Seq<(u64, Seq<V>, Seq<V>)> {
        if !self.captures_at(t) {
            self.pending()
        } else if self.flushes_at(t) {
            Seq::empty()
        } else {
            self.pending().push((t, ex, hy))
        }
    }

    /// The snapshots dispatched by an observation of `ex` and `hy` at step `t`.
    pub open spec fn batch_after(&self, t: u64, ex: Seq<V>, hy: Seq<V>) -> Seq<(u64, Seq<V>, Seq<V>)> {
        if self.flushes_at(t) {
            self.pending().push((t, ex, hy))
        } else {
            Seq::empty()
        }
    }

    /// An oscilloscope for `config` that renders its frames into `frame_dir`.
    pub fn new(config: d1::Oscilloscope, frame_dir: String) -> (r: Result<Oscilloscope<V>, SetupError>)
        ensures
            r is Err <==> config.period() == 0,
            r is Err ==> r == Err::<Oscilloscope<V>, SetupError>(SetupError::ZeroGraphPeriod),
            r matches Ok(o) ==> {
                &&& o.wf()
                &&& o.spec_config() == config
                &&& o.spec_frame_dir() == frame_dir@
                &&& o.pending().len() == 0
                &&& o.captured().len() == 0
                &&& o.dispatched().len() == 0
                &&& !o.is_closed()
            },
    {
        let period = match &config {
            d1::Oscilloscope::Movie(m) => m.graph_period,
        };
        if period == 0 {
            return Err(SetupError::ZeroGraphPeriod);
        }
        let o = Oscilloscope {
            config,
            frame_dir,
            snapshots: Vec::new(),
            closed: false,
            captured: Ghost(Seq::empty()),
            dispatched: Ghost(Seq::empty()),
        };
        assert(steps_of(o.pending()) =~= Seq::<u64>::empty());
        Ok(o)
    }

    /// The scratch directory of the rendered frames.
    pub fn frame_dir(&self) -> (r: &String)
        ensures
            r@ == self.spec_frame_dir(),
    {
        &self.frame_dir
    }

    /// Hands every pending snapshot to the caller, to be rendered, and empties the buffer.
    pub fn flush(&mut self) -> (r: Vec<Snapshot<V>>)
        requires
            old(self).wf(),
            !old(self).is_closed(),
        ensures
            final(self).wf(),
            !final(self).is_closed(),
            frames(r@) == old(self).pending(),
            final(self).pending().len() == 0,
            final(self).captured() == old(self).captured(),
            final(self).dispatched() == old(self).dispatched() + steps_of(old(self).pending()),
            final(self).spec_config() == old(self).spec_config(),
            final(self).spec_frame_dir() == old(self).spec_frame_dir(),
    {
        self.take_batch()
    }

    fn take_batch(&mut self) -> (r: Vec<Snapshot<V>>)
        requires
            old(self).accounted(),
            !old(self).is_closed(),
        ensures
            final(self).wf(),
            !final(self).is_closed(),
            frames(r@) == old(self).pending(),
            final(self).pending().len() == 0,
            final(self).captured() == old(self).captured(),
            final(self).dispatched() == old(self).dispatched() + steps_of(old(self).pending()),
            final(self).spec_config() == old(self).spec_config(),
            final(self).spec_frame_dir() == old(self).spec_frame_dir(),
    {
        let mut batch: Vec<Snapshot<V>> = Vec::new();
        std::mem::swap(&mut batch, &mut self.snapshots);
        self.dispatched = Ghost(self.dispatched@ + steps_of(frames(batch@)));
        assert(steps_of(frames(self.snapshots@)) =~= Seq::<u64>::empty());
        assert(self.captured@ =~= self.dispatched@ + steps_of(frames(self.snapshots@)));
        batch
    }

    /// Observes the fields at step `timestamp`. A capture is taken when the step is a
    /// multiple of the period; when that leaves more snapshots waiting than the
    /// capacity, the whole buffer is returned to be rendered.
    pub fn snapshot(&mut self, timestamp: u64, ex: &Vec<V>, hy: &Vec<V>) -> (r: Option<Vec<Snapshot<V>>>)
        requires
            old(self).wf(),
            !old(self).is_closed(),
        ensures
            final(self).wf(),
            !final(self).is_closed(),
            final(self).spec_config() == old(self).spec_config(),
            final(self).spec_frame_dir() == old(self).spec_frame_dir(),
            final(self).captured() == old(self).captured() + if old(self).captures_at(timestamp) {
                seq![timestamp]
            } else {
                Seq::<u64>::empty()
            },
            final(self).pending() == old(self).pending_after(timestamp, ex@, hy@),
            final(self).dispatched() == old(self).dispatched() + steps_of(old(self).batch_after(timestamp, ex@, hy@)),
            r is Some <==> old(self).flushes_at(timestamp),
            r matches Some(b) ==> frames(b@) == old(self).batch_after(timestamp, ex@, hy@),
    {
        let (period, capacity) = match &self.config {
            d1::Oscilloscope::Movie(m) => (m.graph_period, m.snapshot_buffer_len),
        };
        if timestamp % (period as u64) != 0 {
            return None;
        }
        let s = Snapshot::capture(timestamp, ex, hy);
        self.snapshots.push(s);
        self.captured = Ghost(self.captured@.push(timestamp));
        assert(frames(self.snapshots@) =~= frames(old(self).snapshots@).push((timestamp, ex@, hy@)));
        assert(steps_of(frames(self.snapshots@)) =~= steps_of(frames(old(self).snapshots@)).push(timestamp));
        assert(self.captured@ =~= self.dispatched@ + steps_of(frames(self.snapshots@)));
        if self.snapshots.len() > capacity as usize {
            Some(self.take_batch())
        } else {
            None
        }
    }

    /// Closes the oscilloscope once nothing waits to be rendered, and says how its
    /// movie is to be encoded. A closed oscilloscope captures and dispatches nothing more.
    pub fn close(&mut self) -> (r: EncodeRequest)
        requires
            old(self).wf(),
            !old(self).is_closed(),
            old(self).pending().len() == 0,
        ensures
            final(self).wf(),
            final(self).is_closed(),
            final(self).captured() == old(self).captured(),
            final(self).dispatched() == old(self).dispatched(),
            final(self).spec_config() == old(self).spec_config(),
            final(self).spec_frame_dir() == old(self).spec_frame_dir(),
            final(self).pending() == old(self).pending(),
            encodes(r, *old(self)),
    {
        self.closed = true;
        match &self.config {
            d1::Oscilloscope::Movie(m) => EncodeRequest {
                framerate: m.framerate,
                frame_dir: self.frame_dir.clone(),
                path: m.path.clone(),
            },
        }
    }
}

/// The steps below `end` that an oscilloscope of period `period` captures, in order.
pub open spec fn capture_times(period: nat, end: nat) -> Seq<u64>
    decreases end,
{
    if end == 0 {
        Seq::empty()
    } else {
        let prev = capture_times(period, (end - 1) as nat);
        if ((end - 1) as nat) % period == 0 {
            prev.push((end - 1) as u64)
        } else {
            prev
        }
    }
}

/// An oscilloscope of period `period` captures, among the steps below `end`,
/// exactly the multiples of the period, each once and in increasing order.
pub proof fn lemma_capture_times(period: nat, end: nat)
    requires
        period > 0,
        end <= u64::MAX,
    ensures
        forall|t: u64| capture_times(period, end).contains(t) <==> (t < end && t as nat % period == 0),
        forall|i: int, k: int|
            0 <= i < k < capture_times(period, end).len() ==> capture_times(period, end)[i]
                < capture_times(period, end)[k],
    decreases end,
{
    if end > 0 {
        let prev = capture_times(period, (end - 1) as nat);
        lemma_capture_times(period, (end - 1) as nat);
        let cur = capture_times(period, end);
        assert forall|t: u64| cur.contains(t) <==> (t < end && t as nat % period == 0) by {
            assert(prev.contains(t) <==> (t < end - 1 && t as nat % period == 0));
            if ((end - 1) as nat) % period == 0 {
                assert(cur == prev.push((end - 1) as u64));
                if t == end - 1 {
                    assert(cur[cur.len() - 1] == t);
                } else if cur.contains(t) {
                    let i = choose|i: int| 0 <= i < cur.len() && cur[i] == t;
                    assert(prev[i] == t);
                } else if t < end - 1 && t as nat % period == 0 {
                    let i = choose|i: int| 0 <= i < prev.len() && prev[i] == t;
                    assert(cur[i] == t);
                }
            } else {
                assert(cur == prev);
            }
        }
        assert forall|i: int, k: int| 0 <= i < k < cur.len() implies cur[i] < cur[k] by {
            if ((end - 1) as nat) % period == 0 && k == cur.len() - 1 {
                assert(prev.contains(prev[i]));
            }
        }
    }
}

/// The known universe: both fields, the signals that feed the electric field, and
/// the oscilloscopes that watch it.
pub struct Universe<V> {
    /// How many steps the universe lasts.
    time: u64,
    /// How many steps have been taken.
    clock: u64,
    /// The electric field.
    ex: Vec<V>,
    /// The magnetic field.
    hy: Vec<V>,
    /// The oscilloscopes that capture data about the universe.
    oscilloscopes: Vec<Oscilloscope<V>>,
    /// The signals that feed the universe.
    signals: Vec<Signal<V>>,
}

impl<V: Copy> Universe<V> {
    /// The electric field.
    pub closed spec fn spec_ex(&self) -> Seq<V> {
        self.ex@
    }

    /// The magnetic field.
    pub closed spec fn spec_hy(&self) -> Seq<V> {
        self.hy@
    }

    /// How many steps have been taken.
    pub closed spec fn spec_clock(&self) -> nat {
        self.clock as nat
    }

    /// How many steps the universe lasts.
    pub closed spec fn duration(&self) -> nat {
        self.time as nat
    }

    /// The signals, in configuration order.
    pub closed spec fn spec_signals(&self) -> Seq<Signal<V>> {
        self.signals@
    }

    /// The oscilloscopes, in configuration order.
    pub closed spec fn scopes(&self) -> Seq<Oscilloscope<V>> {
        self.oscilloscopes@
    }

    /// Both fields have one length, every signal lies inside them, and every
    /// oscilloscope is consistent and has captured exactly the multiples of its
    /// period among the steps taken.
    pub open spec fn wf(&self) -> bool {
        &&& self.spec_ex().len() == self.spec_hy().len()
        &&& placed_within(self.spec_signals(), self.spec_ex().len())
        &&& self.spec_clock() <= self.duration()
        &&& forall|j: int|
            0 <= j < self.scopes().len() ==> {
                &&& (#[trigger] self.scopes()[j]).wf()
                &&& self.scopes()[j].captured() == capture_times(self.scopes()[j].period(), self.spec_clock())
            }
    }

    /// No oscilloscope has been closed.
    pub open spec fn all_open(&self) -> bool {
        forall|j: int| 0 <= j < self.scopes().len() ==> !(#[trigger] self.scopes()[j]).is_closed()
    }

    /// The electric field.
    pub fn ex(&self) -> (r: &Vec<V>)
        ensures
            r@ == self.spec_ex(),
    {
        &self.ex
    }

    /// The magnetic field.
    pub fn hy(&self) -> (r: &Vec<V>)
        ensures
            r@ == self.spec_hy(),
    {
        &self.hy
    }

    /// How many steps have been taken.
    pub fn clock(&self) -> (r: u64)
        ensures
            r == self.spec_clock(),
    {
        self.clock
    }

    /// How many steps the universe lasts.
    pub fn time(&self) -> (r: u64)
        ensures
            r == self.duration(),
    {
        self.time
    }

    /// The oscilloscopes, in configuration order.
    pub fn oscilloscopes(&self) -> (r: &Vec<Oscilloscope<V>>)
        ensures
            r@ == self.scopes(),
    {
        &self.oscilloscopes
    }

    /// Takes one step: the electric update, the signal injection, the magnetic
    /// update, then one observation by every oscilloscope. Entry `j` of the result
    /// is the batch that oscilloscope `j` dispatched, empty if it dispatched none.
    pub fn step<F: Fn(V, V, V) -> V, G: Fn(V, V) -> V>(&mut self, rule: &F, plus: &G) -> (r: Vec<
        Vec<Snapshot<V>>,
    >)
        requires
            old(self).wf(),
            old(self).all_open(),
            old(self).spec_clock() < old(self).duration(),
            is_cell_rule(*rule),
            is_sum_rule(*plus),
        ensures
            final(self).wf(),
            final(self).all_open(),
            final(self).spec_clock() == old(self).spec_clock() + 1,
            final(self).duration() == old(self).duration(),
            final(self).spec_signals() == old(self).spec_signals(),
            (final(self).spec_ex(), final(self).spec_hy()) == step_fields(
                *rule,
                *plus,
                old(self).spec_ex(),
                old(self).spec_hy(),
                old(self).spec_signals(),
                old(self).spec_clock() as int,
            ),
            final(self).scopes().len() == old(self).scopes().len(),
            r@.len() == old(self).scopes().len(),
            forall|j: int|
                0 <= j < r@.len() ==> {
                    let o = old(self).scopes()[j];
                    let n = #[trigger] final(self).scopes()[j];
                    let t = old(self).spec_clock() as u64;
                    &&& n.spec_config() == o.spec_config()
                    &&& n.spec_frame_dir() == o.spec_frame_dir()
                    &&& n.pending() == o.pending_after(t, final(self).spec_ex(), final(self).spec_hy())
                    &&& frames(r@[j]@) == o.batch_after(t, final(self).spec_ex(), final(self).spec_hy())
                    &&& n.dispatched() == o.dispatched() + steps_of(
                        o.batch_after(t, final(self).spec_ex(), final(self).spec_hy()),
                    )
                },
    {
        let t = self.clock;
        update_electric(&mut self.ex, &self.hy, rule);
        inject(&mut self.ex, &self.signals, t, plus);
        update_magnetic(&mut self.hy, &self.ex, rule);
        let ghost e = self.ex@;
        let ghost h = self.hy@;
        let mut batches: Vec<Vec<Snapshot<V>>> = Vec::new();
        let n = self.oscilloscopes.len();
        assert forall|k: int| 0 <= k < n implies (#[trigger] old(self).oscilloscopes@[k]).wf()
            && !old(self).oscilloscopes@[k].is_closed() by {
            assert(old(self).scopes()[k] == old(self).oscilloscopes@[k]);
        }
        let mut j: usize = 0;
        while j < n
            invariant
                n == self.oscilloscopes@.len(),
                n == old(self).oscilloscopes@.len(),
                j <= n,
                batches@.len() == j,
                self.ex@ == e,
                self.hy@ == h,
                self.time == old(self).time,
                self.clock == old(self).clock,
                self.clock == t,
                self.signals@ == old(self).signals@,
                forall|k: int|
                    0 <= k < n ==> (#[trigger] old(self).oscilloscopes@[k]).wf()
                        && !old(self).oscilloscopes@[k].is_closed(),
                self.ex@.len() == self.hy@.len(),
                forall|k: int|
                    j <= k < n ==> #[trigger] self.oscilloscopes@[k] == old(self).oscilloscopes@[k],
                forall|k: int|
                    0 <= k < j ==> {
                        let o = old(self).oscilloscopes@[k];
                        let c = #[trigger] self.oscilloscopes@[k];
                        &&& c.wf()
                        &&& !c.is_closed()
                        &&& c.spec_config() == o.spec_config()
                        &&& c.spec_frame_dir() == o.spec_frame_dir()
                        &&& c.captured() == o.captured() + if o.captures_at(t) {
                            seq![t]
                        } else {
                            Seq::<u64>::empty()
                        }
                        &&& c.pending() == o.pending_after(t, self.ex@, self.hy@)
                        &&& frames(batches@[k]@) == o.batch_after(t, self.ex@, self.hy@)
                        &&& c.dispatched() == o.dispatched() + steps_of(o.batch_after(t, self.ex@, self.hy@))
                    },
            decreases n - j,
        {
            let b = self.oscilloscopes[j].snapshot(t, &self.ex, &self.hy);
            let batch = match b {
                Some(b) => b,
                None => {
                    let e: Vec<Snapshot<V>> = Vec::new();
                    assert(frames(e@) =~= Seq::empty());
                    e
                },
            };
            batches.push(batch);
            j = j + 1;
        }
        self.clock = t + 1;
        assert forall|j: int| 0 <= j < self.scopes().len() implies {
            &&& (#[trigger] self.scopes()[j]).wf()
            &&& self.scopes()[j].captured() == capture_times(self.scopes()[j].period(), self.spec_clock())
        } by {
            let o = old(self).scopes()[j];
            assert(o.captured() == capture_times(o.period(), t as nat));
            assert(self.scopes()[j].period() == o.period());
        }
        batches
    }
}

/// Hands the batch of every oscilloscope to `dispatch`, with the oscilloscope's
/// index; an empty batch only where `with_empty` holds.
fn dispatch_batches<V, D: Fn(usize, Vec<Snapshot<V>>)>(
    batches: Vec<Vec<Snapshot<V>>>,
    dispatch: &D,
    with_empty: bool,
)
    requires
        forall|j: usize, b: Vec<Snapshot<V>>| #[trigger] dispatch.requires((j, b)),
{
    let mut batches = batches;
    let count = batches.len();
    let mut j: usize = 0;
    while 0 < batches.len()
        invariant
            forall|j: usize, b: Vec<Snapshot<V>>| #[trigger] dispatch.requires((j, b)),
            j + batches@.len() == count,
        decreases batches@.len(),
    {
        let batch = batches.remove(0);
        if with_empty || batch.len() > 0 {
            dispatch(j, batch);
        }
        j = j + 1;
    }
}

impl<V: Copy> Universe<V> {
    /// Every oscilloscope holds no pending snapshot.
    pub open spec fn drained(&self) -> bool {
        forall|j: int| 0 <= j < self.scopes().len() ==> (#[trigger] self.scopes()[j]).pending().len() == 0
    }

    /// Flushes every oscilloscope once: entry `j` of the result is everything that
    /// oscilloscope `j` still held, in capture order (empty if it held nothing), to be
    /// rendered, so that nothing captured is left unrendered.
    pub fn flush(&mut self) -> (r: Vec<Vec<Snapshot<V>>>)
        requires
            old(self).wf(),
            old(self).all_open(),
        ensures
            r@.len() == old(self).scopes().len(),
            forall|j: int| 0 <= j < r@.len() ==> frames(#[trigger] r@[j]@) == old(self).scopes()[j].pending(),
            final(self).wf(),
            final(self).all_open(),
            final(self).drained(),
            final(self).spec_ex() == old(self).spec_ex(),
            final(self).spec_hy() == old(self).spec_hy(),
            final(self).spec_clock() == old(self).spec_clock(),
            final(self).duration() == old(self).duration(),
            final(self).spec_signals() == old(self).spec_signals(),
            final(self).scopes().len() == old(self).scopes().len(),
            forall|j: int|
                0 <= j < final(self).scopes().len() ==> {
                    let o = old(self).scopes()[j];
                    let n = #[trigger] final(self).scopes()[j];
                    &&& n.spec_config() == o.spec_config()
                    &&& n.spec_frame_dir() == o.spec_frame_dir()
                    &&& n.dispatched() == n.captured()
                    &&& n.dispatched() == o.dispatched() + steps_of(o.pending())
                },
    {
        let mut batches: Vec<Vec<Snapshot<V>>> = Vec::new();
        let n = self.oscilloscopes.len();
        assert forall|k: int| 0 <= k < n implies {
            &&& (#[trigger] old(self).oscilloscopes@[k]).wf()
            &&& !old(self).oscilloscopes@[k].is_closed()
            &&& old(self).oscilloscopes@[k].captured() == capture_times(
                old(self).oscilloscopes@[k].period(),
                old(self).clock as nat,
            )
            &&& old(self).drained() ==> old(self).oscilloscopes@[k].pending().len() == 0
        } by {
            assert(old(self).scopes()[k] == old(self).oscilloscopes@[k]);
        }
        let mut j: usize = 0;
        while j < n
            invariant
                n == self.oscilloscopes@.len(),
                n == old(self).oscilloscopes@.len(),
                j <= n,
                self.ex@ == old(self).ex@,
                self.hy@ == old(self).hy@,
                self.time == old(self).time,
                self.clock == old(self).clock,
                self.signals@ == old(self).signals@,
                forall|k: int|
                    0 <= k < n ==> {
                        let o = old(self).oscilloscopes@[k];
                        let c = #[trigger] self.oscilloscopes@[k];
                        &&& c.wf()
                        &&& !c.is_closed()
                        &&& c.spec_config() == o.spec_config()
                        &&& c.spec_frame_dir() == o.spec_frame_dir()
                        &&& c.captured() == o.captured()
                        &&& o.captured() == capture_times(o.period(), self.clock as nat)
                        &&& k < j ==> c.pending().len() == 0 && c.dispatched() == c.captured()
                        &&& k < j ==> c.dispatched() == o.dispatched() + steps_of(o.pending())
                        &&& k < j ==> frames(batches@[k]@) == o.pending()
                        &&& k >= j ==> c == o
                    },
                batches@.len() == j,
            decreases n - j,
        {
            let ghost before = self.oscilloscopes@;
            let ghost prev = batches@;
            let b = self.oscilloscopes[j].flush();
            let ghost c = self.oscilloscopes@[j as int];
            assert(c.captured() =~= c.dispatched());
            batches.push(b);
            j = j + 1;
            assert forall|k: int| 0 <= k < n implies {
                let o = old(self).oscilloscopes@[k];
                let c = #[trigger] self.oscilloscopes@[k];
                &&& c.wf()
                &&& !c.is_closed()
                &&& c.spec_config() == o.spec_config()
                &&& c.spec_frame_dir() == o.spec_frame_dir()
                &&& c.captured() == o.captured()
                &&& o.captured() == capture_times(o.period(), self.clock as nat)
                &&& k < j ==> c.pending().len() == 0 && c.dispatched() == c.captured()
                &&& k < j ==> c.dispatched() == o.dispatched() + steps_of(o.pending())
                &&& k < j ==> frames(batches@[k]@) == o.pending()
                &&& k >= j ==> c == o
            } by {
                if k != j - 1 {
                    assert(self.oscilloscopes@[k] == before[k]);
                }
                if k < j - 1 {
                    assert(batches@[k] == prev[k]);
                }
            }
        }
        assert forall|k: int| 0 <= k < n implies frames(#[trigger] batches@[k]@) == old(self).scopes()[k].pending() by {
            assert(old(self).scopes()[k] == old(self).oscilloscopes@[k]);
            assert(self.oscilloscopes@[k].wf());
        }
        batches
    }

    /// Runs every remaining step, handing each batch of snapshots that an
    /// oscilloscope dispatches to `dispatch` as soon as it is dispatched, then
    /// flushes every oscilloscope once and hands each final batch, empty or not,
    /// to `dispatch`.
    ///
    /// The contract states the fields and what each oscilloscope captured and
    /// dispatched; it cannot state what an arbitrary `dispatch` received. A caller
    /// that needs that drives the run itself with `step` and `flush`, whose
    /// results are stated batch by batch.
    pub fn let_there_be_light<F: Fn(V, V, V) -> V, G: Fn(V, V) -> V, D: Fn(usize, Vec<Snapshot<V>>)>(
        &mut self,
        rule: &F,
        plus: &G,
        dispatch: &D,
    )
        requires
            old(self).wf(),
            old(self).all_open(),
            is_cell_rule(*rule),
            is_sum_rule(*plus),
            forall|j: usize, b: Vec<Snapshot<V>>| #[trigger] dispatch.requires((j, b)),
        ensures
            final(self).wf(),
            final(self).all_open(),
            final(self).drained(),
            final(self).spec_clock() == final(self).duration(),
            final(self).duration() == old(self).duration(),
            final(self).spec_signals() == old(self).spec_signals(),
            (final(self).spec_ex(), final(self).spec_hy()) == run_fields(
                *rule,
                *plus,
                old(self).spec_ex(),
                old(self).spec_hy(),
                old(self).spec_signals(),
                old(self).spec_clock() as int,
                old(self).duration() as int,
            ),
            final(self).scopes().len() == old(self).scopes().len(),
            forall|j: int|
                0 <= j < final(self).scopes().len() ==> {
                    let o = old(self).scopes()[j];
                    let n = #[trigger] final(self).scopes()[j];
                    &&& n.spec_config() == o.spec_config()
                    &&& n.spec_frame_dir() == o.spec_frame_dir()
                    &&& n.dispatched() == capture_times(n.period(), final(self).duration())
                },
    {
        while self.clock < self.time
            invariant
                self.wf(),
                self.all_open(),
                is_cell_rule(*rule),
                is_sum_rule(*plus),
                forall|j: usize, b: Vec<Snapshot<V>>| #[trigger] dispatch.requires((j, b)),
                self.time == old(self).time,
                self.signals@ == old(self).signals@,
                self.oscilloscopes@.len() == old(self).oscilloscopes@.len(),
                run_fields(*rule, *plus, self.ex@, self.hy@, self.signals@, self.clock as int, self.time as int)
                    == run_fields(
                    *rule,
                    *plus,
                    old(self).ex@,
                    old(self).hy@,
                    old(self).signals@,
                    old(self).clock as int,
                    old(self).time as int,
                ),
                forall|j: int|
                    0 <= j < self.oscilloscopes@.len() ==> {
                        let o = old(self).oscilloscopes@[j];
                        let c = #[trigger] self.oscilloscopes@[j];
                        &&& c.spec_config() == o.spec_config()
                        &&& c.spec_frame_dir() == o.spec_frame_dir()
                    },
            decreases self.time - self.clock,
        {
            let batches = self.step(rule, plus);
            dispatch_batches(batches, dispatch, false);
        }
        let last = self.flush();
        dispatch_batches(last, dispatch, true);
    }

    /// Closes every oscilloscope, once everything it captured has been handed out,
    /// and says how each one's movie is to be encoded, in oscilloscope order.
    pub fn close(&mut self) -> (r: Vec<EncodeRequest>)
        requires
            old(self).wf(),
            old(self).all_open(),
            old(self).drained(),
        ensures
            final(self).wf(),
            final(self).spec_ex() == old(self).spec_ex(),
            final(self).spec_hy() == old(self).spec_hy(),
            final(self).spec_clock() == old(self).spec_clock(),
            final(self).duration() == old(self).duration(),
            final(self).spec_signals() == old(self).spec_signals(),
            final(self).scopes().len() == old(self).scopes().len(),
            r@.len() == old(self).scopes().len(),
            forall|j: int|
                0 <= j < r@.len() ==> {
                    let o = old(self).scopes()[j];
                    let n = #[trigger] final(self).scopes()[j];
                    &&& n.is_closed()
                    &&& n.spec_config() == o.spec_config()
                    &&& n.spec_frame_dir() == o.spec_frame_dir()
                    &&& n.pending().len() == 0
                    &&& n.dispatched() == o.dispatched()
                    &&& encodes(r@[j], o)
                },
    {
        let mut requests: Vec<EncodeRequest> = Vec::new();
        let n = self.oscilloscopes.len();
        assert forall|k: int| 0 <= k < n implies {
            &&& (#[trigger] old(self).oscilloscopes@[k]).wf()
            &&& !old(self).oscilloscopes@[k].is_closed()
            &&& old(self).oscilloscopes@[k].captured() == capture_times(
                old(self).oscilloscopes@[k].period(),
                old(self).clock as nat,
            )
            &&& old(self).drained() ==> old(self).oscilloscopes@[k].pending().len() == 0
        } by {
            assert(old(self).scopes()[k] == old(self).oscilloscopes@[k]);
        }
        let mut j: usize = 0;
        while j < n
            invariant
                n == self.oscilloscopes@.len(),
                n == old(self).oscilloscopes@.len(),
                j <= n,
                requests@.len() == j,
                self.ex@ == old(self).ex@,
                self.hy@ == old(self).hy@,
                self.time == old(self).time,
                self.clock == old(self).clock,
                self.signals@ == old(self).signals@,
                forall|k: int|
                    0 <= k < n ==> {
                        let o = #[trigger] old(self).oscilloscopes@[k];
                        &&& o.wf()
                        &&& !o.is_closed()
                        &&& o.pending().len() == 0
                        &&& o.captured() == capture_times(o.period(), self.clock as nat)
                    },
                forall|k: int| j <= k < n ==> #[trigger] self.oscilloscopes@[k] == old(self).oscilloscopes@[k],
                forall|k: int|
                    0 <= k < j ==> {
                        let o = old(self).oscilloscopes@[k];
                        let c = #[trigger] self.oscilloscopes@[k];
                        &&& c.wf()
                        &&& c.is_closed()
                        &&& c.spec_config() == o.spec_config()
                        &&& c.spec_frame_dir() == o.spec_frame_dir()
                        &&& c.pending().len() == 0
                        &&& c.captured() == o.captured()
                        &&& c.dispatched() == o.dispatched()
                        &&& encodes(requests@[k], o)
                    },
            decreases n - j,
        {
            let ghost before = self.oscilloscopes@;
            let ghost prev = requests@;
            let req = self.oscilloscopes[j].close();
            requests.push(req);
            assert forall|k: int| 0 <= k < j implies #[trigger] self.oscilloscopes@[k] == before[k] && requests@[k] == prev[k] by {}
            j = j + 1;
        }
        requests
    }
}

/// A field of `n` cells that all hold `zero`.
fn zeros<V: Copy>(zero: V, n: usize) -> (r: Vec<V>)
    ensures
        r@ == Seq::new(n as nat, |i: int| zero),
{
    let mut r: Vec<V> = Vec::with_capacity(n);
    let mut i: usize = 0;
    while i < n
        invariant
            i <= n,
            r@ == Seq::new(i as nat, |k: int| zero),
        decreases n - i,
    {
        r.push(zero);
        i = i + 1;
        assert(r@ =~= Seq::new(i as nat, |k: int| zero));
    }
    r
}

/// The location of the first signal placed outside a field of `size` cells, if any.
pub open spec fn first_misplaced(signals: Seq<d1::Signal>, size: u64) -> Option<usize>
    decreases signals.len(),
{
    if signals.len() == 0 {
        None
    } else {
        match first_misplaced(signals.drop_last(), size) {
            Some(l) => Some(l),
            None => if signals.last().location as u64 >= size {
                Some(signals.last().location)
            } else {
                None
            },
        }
    }
}

/// The error that building a universe from `config`, with `n_series` value series
/// and `n_dirs` frame directories, ends in; checked in this order.
pub open spec fn setup_error(config: d1::Simulation, n_series: nat, n_dirs: nat) -> Option<SetupError> {
    if n_series != config.signals@.len() {
        Some(SetupError::SeriesCountMismatch { signals: config.signals@.len() as usize, series: n_series as usize })
    } else if n_dirs != config.oscilloscopes@.len() {
        Some(
            SetupError::FrameDirCountMismatch {
                oscilloscopes: config.oscilloscopes@.len() as usize,
                frame_dirs: n_dirs as usize,
            },
        )
    } else if config.size > usize::MAX {
        Some(SetupError::SizeTooLarge { size: config.size })
    } else if exists|j: int| 0 <= j < config.oscilloscopes@.len() && (#[trigger] config.oscilloscopes@[j]).period() == 0 {
        Some(SetupError::ZeroGraphPeriod)
    } else {
        match first_misplaced(config.signals@, config.size) {
            Some(l) => Some(SetupError::SignalOutOfBounds { location: l, size: config.size }),
            None => None,
        }
    }
}

impl<V: Copy> Universe<V> {
    /// Builds the universe that `config` describes: both fields of `config.size`
    /// cells hold `zero`; signal `k` injects `series[k]`; oscilloscope `j` renders
    /// into `frame_dirs[j]`. Fails with the first error that `setup_error` names.
    pub fn in_the_beginning(config: &d1::Simulation, series: Vec<Vec<V>>, frame_dirs: Vec<String>, zero: V) -> (r:
        Result<Universe<V>, SetupError>)
        ensures
            r is Err <==> setup_error(*config, series@.len(), frame_dirs@.len()) is Some,
            r matches Err(e) ==> setup_error(*config, series@.len(), frame_dirs@.len()) == Some(e),
            r matches Ok(u) ==> {
                &&& u.wf()
                &&& u.all_open()
                &&& u.spec_clock() == 0
                &&& u.duration() == config.time
                &&& u.spec_ex() == Seq::new(config.size as nat, |i: int| zero)
                &&& u.spec_hy() == Seq::new(config.size as nat, |i: int| zero)
                &&& u.spec_signals().len() == config.signals@.len()
                &&& forall|k: int|
                    0 <= k < u.spec_signals().len() ==> (#[trigger] u.spec_signals()[k]).location
                        == config.signals@[k].location && u.spec_signals()[k].values@ == series@[k]@
                &&& u.scopes().len() == config.oscilloscopes@.len()
                &&& forall|j: int|
                    0 <= j < u.scopes().len() ==> {
                        let o = #[trigger] u.scopes()[j];
                        &&& o.spec_config() == config.oscilloscopes@[j]
                        &&& o.spec_frame_dir() == frame_dirs@[j]@
                        &&& o.pending().len() == 0
                        &&& o.dispatched().len() == 0
                    }
            },
    {
        if series.len() != config.signals.len() {
            return Err(SetupError::SeriesCountMismatch { signals: config.signals.len(), series: series.len() });
        }
        if frame_dirs.len() != config.oscilloscopes.len() {
            return Err(
                SetupError::FrameDirCountMismatch {
                    oscilloscopes: config.oscilloscopes.len(),
                    frame_dirs: frame_dirs.len(),
                },
            );
        }
        if config.size > usize::MAX as u64 {
            return Err(SetupError::SizeTooLarge { size: config.size });
        }
        let size = config.size as usize;
        let ghost dirs = frame_dirs@;
        let ghost values_len = series@.len();
        let mut dirs_left = frame_dirs;
        let mut oscilloscopes: Vec<Oscilloscope<V>> = Vec::new();
        let n = config.oscilloscopes.len();
        let mut j: usize = 0;
        while j < n
            invariant
                n == config.oscilloscopes@.len(),
                n == dirs.len(),
                j <= n,
                dirs_left@ == dirs.subrange(j as int, n as int),
                values_len == config.signals@.len(),
                values_len == series@.len(),
                dirs == frame_dirs@,
                config.size <= usize::MAX,
                oscilloscopes@.len() == j,
                forall|k: int| 0 <= k < j ==> (#[trigger] config.oscilloscopes@[k]).period() > 0,
                forall|k: int|
                    0 <= k < j ==> {
                        let o = #[trigger] oscilloscopes@[k];
                        &&& o.wf()
                        &&& !o.is_closed()
                        &&& o.spec_config() == config.oscilloscopes@[k]
                        &&& o.spec_frame_dir() == dirs[k]@
                        &&& o.pending().len() == 0
                        &&& o.captured().len() == 0
                        &&& o.dispatched().len() == 0
                    },
            decreases n - j,
        {
            let c = config.oscilloscopes[j].duplicate();
            let dir = dirs_left.remove(0);
            match Oscilloscope::new(c, dir) {
                Ok(o) => {
                    oscilloscopes.push(o);
                },
                Err(e) => {
                    assert(config.oscilloscopes@[j as int].period() == 0);
                    assert(exists|i: int| 0 <= i < config.oscilloscopes@.len() && (#[trigger] config.oscilloscopes@[i]).period() == 0);
                    return Err(e);
                },
            }
            j = j + 1;
        }
        let ghost values = series@;
        let mut series_left = series;
        let mut signals: Vec<Signal<V>> = Vec::new();
        let m = config.signals.len();
        let mut k: usize = 0;
        while k < m
            invariant
                m == config.signals@.len(),
                m == values.len(),
                k <= m,
                size as u64 == config.size,
                series_left@ == values.subrange(k as int, m as int),
                signals@.len() == k,
                first_misplaced(config.signals@.subrange(0, k as int), config.size) is None,
                values_len == config.signals@.len(),
                values_len == series@.len(),
                dirs == frame_dirs@,
                config.size <= usize::MAX,
                n == config.oscilloscopes@.len(),
                n == dirs.len(),
                oscilloscopes@.len() == n,
                forall|i: int| 0 <= i < n ==> (#[trigger] config.oscilloscopes@[i]).period() > 0,
                forall|i: int|
                    0 <= i < n ==> {
                        let o = #[trigger] oscilloscopes@[i];
                        &&& o.wf()
                        &&& !o.is_closed()
                        &&& o.spec_config() == config.oscilloscopes@[i]
                        &&& o.spec_frame_dir() == dirs[i]@
                        &&& o.pending().len() == 0
                        &&& o.captured().len() == 0
                        &&& o.dispatched().len() == 0
                    },
                forall|i: int|
                    0 <= i < k ==> (#[trigger] signals@[i]).location == config.signals@[i].location
                        && signals@[i].values@ == values[i]@ && signals@[i].location < size,
            decreases m - k,
        {
            let values_k = series_left.remove(0);
            assert(config.signals@.subrange(0, k + 1).drop_last() =~= config.signals@.subrange(0, k as int));
            match Signal::new(&config.signals[k], values_k, config.size) {
                Ok(s) => {
                    signals.push(s);
                },
                Err(e) => {
                    assert(first_misplaced(config.signals@.subrange(0, k + 1), config.size) == Some(
                        config.signals@[k as int].location,
                    ));
                    proof {
                        lemma_first_misplaced_prefix(config.signals@, config.size, k as int + 1);
                    }
                    return Err(e);
                },
            }
            k = k + 1;
        }
        assert(config.signals@.subrange(0, m as int) =~= config.signals@);
        let u = Universe {
            time: config.time,
            clock: 0,
            ex: zeros(zero, size),
            hy: zeros(zero, size),
            oscilloscopes,
            signals,
        };
        assert forall|i: int| 0 <= i < u.scopes().len() implies {
            &&& (#[trigger] u.scopes()[i]).wf()
            &&& u.scopes()[i].captured() == capture_times(u.scopes()[i].period(), 0)
        } by {
            assert(u.scopes()[i].captured() =~= capture_times(u.scopes()[i].period(), 0));
        }
        assert(placed_within(u.spec_signals(), u.spec_ex().len()));
        Ok(u)
    }
}

/// The first misplaced signal of a prefix is the first of the whole sequence.
proof fn lemma_first_misplaced_prefix(signals: Seq<d1::Signal>, size: u64, k: int)
    requires
        0 <= k <= signals.len(),
        first_misplaced(signals.subrange(0, k), size) is Some,
    ensures
        first_misplaced(signals, size) == first_misplaced(signals.subrange(0, k), size),
    decreases signals.len() - k,
{
    if k < signals.len() {
        assert(signals.subrange(0, k + 1).drop_last() =~= signals.subrange(0, k));
        lemma_first_misplaced_prefix(signals, size, k + 1);
    } else {
        assert(signals.subrange(0, k) =~= signals);
    }
}

} // verus!
