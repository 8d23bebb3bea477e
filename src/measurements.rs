use std::collections::VecDeque;
use vstd::prelude::*;

verus! {

/// One reading: temperature plus three axes, stamped with the device clock.
#[derive(Clone, Copy, Debug)]
pub struct SensorSample {
    pub t: u16,
    pub x: u16,
    pub y: u16,
    pub z: u16,
    pub timestamp: u64,
}

impl SensorSample {
    /// A sample whose channels and timestamp are all zero.
    pub fn empty() -> (r: Self)
        ensures
            r.t == 0 && r.x == 0 && r.y == 0 && r.z == 0,
            r.timestamp == 0,
    {
        Self { t: 0, x: 0, y: 0, z: 0, timestamp: 0 }
    }

    pub fn new(t: u16, x: u16, y: u16, z: u16, timestamp: u64) -> (r: Self)
        ensures
            r.t == t && r.x == x && r.y == y && r.z == z,
            r.timestamp == timestamp,
    {
        Self { t, x, y, z, timestamp }
    }
}

/// A point of one plotted trace: the timestamp on the horizontal axis and
/// one channel's value on the vertical axis.
#[derive(Clone, Copy, Debug, PartialEq, Eq, Structural)]
pub struct Measurement {
    pub x: u64,
    pub y: u16,
}

/// A sample seen as four points, one per channel, that share its timestamp.
#[derive(Clone, Copy, Debug, PartialEq, Eq, Structural)]
pub struct SensorSampleMeasurement {
    pub t: Measurement,
    pub x: Measurement,
    pub y: Measurement,
    pub z: Measurement,
    pub timestamp: u64,
}

/// The projection of a sample onto its four plotted points.
pub open spec fn point_of(s: SensorSample) -> SensorSampleMeasurement {
    SensorSampleMeasurement {
        t: Measurement { x: s.timestamp, y: s.t },
        x: Measurement { x: s.timestamp, y: s.x },
        y: Measurement { x: s.timestamp, y: s.y },
        z: Measurement { x: s.timestamp, y: s.z },
        timestamp: s.timestamp,
    }
}

/// All four points of `m` stand at its own timestamp.
pub open spec fn is_aligned(m: SensorSampleMeasurement) -> bool {
    &&& m.t.x == m.timestamp
    &&& m.x.x == m.timestamp
    &&& m.y.x == m.timestamp
    &&& m.z.x == m.timestamp
}

impl SensorSampleMeasurement {
    pub fn from(s: SensorSample) -> (r: Self)
        ensures
            r == point_of(s),
    {
        Self {
            t: Measurement { x: s.timestamp, y: s.t },
            x: Measurement { x: s.timestamp, y: s.x },
            y: Measurement { x: s.timestamp, y: s.y },
            z: Measurement { x: s.timestamp, y: s.z },
            timestamp: s.timestamp,
        }
    }
}

/// The timestamp of the newest entry of a non-empty window.
pub open spec fn newest(v: Seq<SensorSampleMeasurement>) -> u64 {
    v.last().timestamp
}

/// Drops entries from the front for as long as their timestamp lies below `limit`.
pub open spec fn trim_front(v: Seq<SensorSampleMeasurement>, limit: u64) -> Seq<
    SensorSampleMeasurement,
>
    decreases v.len(),
{
    if v.len() > 0 && v[0].timestamp < limit {
        trim_front(v.drop_first(), limit)
    } else {
        v
    }
}

/// Whether a sample stamped `timestamp` shows that the device clock went back.
pub open spec fn is_regression(v: Seq<SensorSampleMeasurement>, timestamp: u64) -> bool {
    v.len() > 0 && timestamp < newest(v)
}

/// The window once the sample's point has been taken in, before eviction:
/// appended, or alone where its timestamp goes back.
pub open spec fn admitted(v: Seq<SensorSampleMeasurement>, s: SensorSample) -> Seq<
    SensorSampleMeasurement,
> {
    if is_regression(v, s.timestamp) {
        seq![point_of(s)]
    } else {
        v.push(point_of(s))
    }
}

/// Eviction after a sample stamped `latest` came in. Once `latest` reaches
/// `look_behind`, every leading entry older than `latest - look_behind`
/// goes; before that, a window of exactly two entries loses the older one.
pub open spec fn evicted(v: Seq<SensorSampleMeasurement>, latest: u64, look_behind: usize) -> Seq<
    SensorSampleMeasurement,
> {
    if latest >= look_behind as u64 {
        trim_front(v, (latest - look_behind as u64) as u64)
    } else if v.len() == 2 {
        v.drop_first()
    } else {
        v
    }
}

/// The window after `add(s)`.
pub open spec fn window_after_add(
    v: Seq<SensorSampleMeasurement>,
    look_behind: usize,
    s: SensorSample,
) -> Seq<SensorSampleMeasurement> {
    evicted(admitted(v, s), s.timestamp, look_behind)
}

/// Entries in timestamp order.
pub open spec fn is_sorted(v: Seq<SensorSampleMeasurement>) -> bool {
    forall|i: int, j: int| 0 <= i <= j < v.len() ==> #[trigger] v[i].timestamp <= #[trigger] v[j].timestamp
}

/// Entries in timestamp order, none older than `look_behind` before the
/// newest, each with its four points at its own timestamp.
pub open spec fn window_wf(v: Seq<SensorSampleMeasurement>, look_behind: usize) -> bool {
    &&& is_sorted(v)
    &&& forall|i: int| 0 <= i < v.len() ==> newest(v) - #[trigger] v[i].timestamp <= look_behind
    &&& forall|i: int| 0 <= i < v.len() ==> is_aligned(#[trigger] v[i])
}

/// What `trim_front` keeps is a suffix: everything it dropped lies below
/// `limit`, and what it kept starts at or above it.
pub proof fn lemma_trim_front_suffix(v: Seq<SensorSampleMeasurement>, limit: u64)
    ensures
        trim_front(v, limit).len() <= v.len(),
        trim_front(v, limit) == v.subrange(v.len() - trim_front(v, limit).len(), v.len() as int),
        forall|i: int|
            0 <= i < v.len() - trim_front(v, limit).len() ==> #[trigger] v[i].timestamp < limit,
        trim_front(v, limit).len() > 0 ==> trim_front(v, limit)[0].timestamp >= limit,
    decreases v.len(),
{
    if v.len() > 0 && v[0].timestamp < limit {
        let w = v.drop_first();
        lemma_trim_front_suffix(w, limit);
        assert forall|i: int| 0 <= i < v.len() - trim_front(v, limit).len() implies #[trigger] v[i].timestamp < limit by {
            if i > 0 {
                assert(v[i] == w[i - 1]);
            }
        }
        assert(w.subrange(w.len() - trim_front(w, limit).len(), w.len() as int) =~= v.subrange(
            v.len() - trim_front(v, limit).len(),
            v.len() as int,
        ));
    } else {
        assert(v.subrange(0, v.len() as int) =~= v);
    }
}

/// A sample stamped earlier than the newest entry empties the window: after
/// `add` the window holds that sample's point alone.
pub proof fn lemma_reset_on_regression(
    v: Seq<SensorSampleMeasurement>,
    look_behind: usize,
    s: SensorSample,
)
    requires
        v.len() > 0,
        s.timestamp < newest(v),
    ensures
        window_after_add(v, look_behind, s) == seq![point_of(s)],
{
    let a = admitted(v, s);
    assert(a == seq![point_of(s)]);
    if s.timestamp >= look_behind as u64 {
        let limit = (s.timestamp - look_behind as u64) as u64;
        assert(a.drop_first().len() == 0);
        assert(trim_front(a, limit) == a);
    }
}

/// `add` never reorders the window: without a regression the new window is
/// a suffix of the old one followed by the new point, and it ends with that
/// point; with a regression it is that point alone.
pub proof fn lemma_order_kept(v: Seq<SensorSampleMeasurement>, look_behind: usize, s: SensorSample)
    ensures
        ({
            let r = window_after_add(v, look_behind, s);
            let a = v.push(point_of(s));
            &&& 1 <= r.len()
            &&& r.last() == point_of(s)
            &&& is_regression(v, s.timestamp) ==> r == seq![point_of(s)]
            &&& !is_regression(v, s.timestamp) ==> r.len() <= a.len() && r == a.subrange(
                a.len() - r.len(),
                a.len() as int,
            )
        }),
{
    let a = admitted(v, s);
    let r = window_after_add(v, look_behind, s);
    if is_regression(v, s.timestamp) {
        lemma_reset_on_regression(v, look_behind, s);
    } else if s.timestamp >= look_behind as u64 {
        let limit = (s.timestamp - look_behind as u64) as u64;
        lemma_trim_front_suffix(a, limit);
        assert(a.last() == point_of(s));
        if r.len() == 0 {
            assert(a[a.len() - 1].timestamp < limit);
        }
        assert(r.last() == a.last());
    } else if a.len() == 2 {
        assert(r =~= a.subrange(1, 2));
    } else {
        assert(r =~= a.subrange(0, a.len() as int));
    }
}

/// Two reads of one window hand out equal traces.
pub proof fn lemma_read_idempotent(
    v: Seq<SensorSampleMeasurement>,
    r1: [Vec<Measurement>; 4],
    r2: [Vec<Measurement>; 4],
)
    requires
        is_snapshot_of(r1, v),
        is_snapshot_of(r2, v),
    ensures
        forall|c: int| 0 <= c < 4 ==> (#[trigger] r1[c])@ == r2[c]@,
{
}

/// The window after `add` of each of `samples` in turn, starting from `v`.
pub open spec fn window_after_adds(
    v: Seq<SensorSampleMeasurement>,
    look_behind: usize,
    samples: Seq<SensorSample>,
) -> Seq<SensorSampleMeasurement>
    decreases samples.len(),
{
    if samples.len() == 0 {
        v
    } else {
        window_after_add(
            window_after_adds(v, look_behind, samples.drop_last()),
            look_behind,
            samples.last(),
        )
    }
}

/// The points of `samples`, in order.
pub open spec fn points_of(samples: Seq<SensorSample>) -> Seq<SensorSampleMeasurement> {
    samples.map_values(|s: SensorSample| point_of(s))
}

/// Timestamps that strictly increase along `samples`.
pub open spec fn strictly_increasing(samples: Seq<SensorSample>) -> bool {
    forall|i: int, j: int|
        0 <= i < j < samples.len() ==> #[trigger] samples[i].timestamp
            < #[trigger] samples[j].timestamp
}

/// From an empty window, strictly increasing timestamps that all reach
/// `look_behind` leave exactly the suffix of samples stamped at or after
/// `newest - look_behind`, in arrival order.
proof fn lemma_retained_suffix(look_behind: usize, samples: Seq<SensorSample>)
    requires
        samples.len() > 0,
        strictly_increasing(samples),
        samples[0].timestamp >= look_behind as u64,
    ensures
        ({
            let r = window_after_adds(Seq::empty(), look_behind, samples);
            let n = samples.len() as int;
            let k = n - r.len();
            &&& r.len() <= n
            &&& r == points_of(samples.subrange(k, n))
            &&& forall|i: int|
                0 <= i < n ==> (i >= k <==> #[trigger] samples[i].timestamp >= samples.last().timestamp
                    - look_behind as u64)
        }),
    decreases samples.len(),
{
    let n = samples.len() as int;
    let s = samples.last();
    let p = point_of(s);
    let lb = look_behind as u64;
    let limit = (s.timestamp - lb) as u64;
    let prev = window_after_adds(Seq::empty(), look_behind, samples.drop_last());
    let r = window_after_adds(Seq::empty(), look_behind, samples);
    assert(r == window_after_add(prev, look_behind, s));
    if n == 1 {
        let a = seq![p];
        assert(admitted(prev, s) == a);
        assert(a.drop_first().len() == 0);
        assert(trim_front(a, limit) == a);
        assert(points_of(samples.subrange(0, 1)) =~= a);
    } else {
        let before = samples.drop_last();
        lemma_retained_suffix(look_behind, before);
        let k0 = (n - 1) - prev.len();
        assert(before[n - 2] == samples[n - 2]);
        assert(samples[n - 2].timestamp < s.timestamp);
        assert(k0 <= n - 2);
        assert(prev[prev.len() - 1] == point_of(samples[n - 2]));
        assert(!is_regression(prev, s.timestamp));
        let a = prev.push(p);
        assert(admitted(prev, s) == a);
        assert(a =~= points_of(samples.subrange(k0, n)));
        assert(samples[0].timestamp < s.timestamp);
        assert(r == trim_front(a, limit));
        lemma_trim_front_suffix(a, limit);
        let k = n - r.len();
        assert(r =~= points_of(samples.subrange(k, n)));
        assert forall|i: int| 0 <= i < n implies (i >= k <==> #[trigger] samples[i].timestamp
            >= limit) by {
            assert(s.timestamp >= lb);
            if i < k0 {
                assert(before[i] == samples[i]);
                assert(before[i].timestamp < before.last().timestamp - lb);
                assert(samples[i].timestamp < limit);
            } else if i < k {
                assert(a[i - k0] == point_of(samples[i]));
                assert(a[i - k0].timestamp < limit);
                assert(samples[i].timestamp < limit);
            } else {
                assert(r[0] == a[k - k0]);
                assert(a[k - k0] == point_of(samples[k]));
                assert(r[0].timestamp >= limit);
                if i > k {
                    assert(samples[k].timestamp < samples[i].timestamp);
                }
                assert(samples[i].timestamp >= limit);
            }
        }
    }
}

/// From an empty window, strictly increasing timestamps leave exactly the
/// suffix of samples stamped after `newest - look_behind`, in arrival order.
/// Stated where every timestamp reaches `look_behind` (no warm-up eviction
/// happens) and none falls on `newest - look_behind` itself, which the
/// window keeps.
pub proof fn lemma_monotonic_retention(look_behind: usize, samples: Seq<SensorSample>)
    requires
        samples.len() > 0,
        strictly_increasing(samples),
        samples[0].timestamp >= look_behind as u64,
        forall|i: int|
            0 <= i < samples.len() ==> #[trigger] samples[i].timestamp
                != samples.last().timestamp - look_behind as u64,
    ensures
        ({
            let r = window_after_adds(Seq::empty(), look_behind, samples);
            let n = samples.len() as int;
            let k = n - r.len();
            &&& r.len() <= n
            &&& r == points_of(samples.subrange(k, n))
            &&& forall|i: int|
                0 <= i < n ==> (i >= k <==> #[trigger] samples[i].timestamp > samples.last().timestamp
                    - look_behind as u64)
        }),
{
    lemma_retained_suffix(look_behind, samples);
}

/// `add` keeps the window well formed.
pub proof fn lemma_add_keeps_wf(v: Seq<SensorSampleMeasurement>, look_behind: usize, s: SensorSample)
    requires
        window_wf(v, look_behind),
    ensures
        window_wf(window_after_add(v, look_behind, s), look_behind),
{
    let a = admitted(v, s);
    let p = point_of(s);
    assert(a.last() == p);
    assert(is_sorted(a)) by {
        if !is_regression(v, s.timestamp) {
            assert forall|i: int, j: int| 0 <= i <= j < a.len() implies #[trigger] a[i].timestamp
                <= #[trigger] a[j].timestamp by {
                if j == v.len() as int && i < j {
                    assert(v[i].timestamp <= v[v.len() - 1].timestamp);
                }
            }
        }
    }
    assert(forall|i: int| 0 <= i < a.len() ==> is_aligned(#[trigger] a[i]));
    let r = window_after_add(v, look_behind, s);
    if s.timestamp >= look_behind as u64 {
        let limit = (s.timestamp - look_behind as u64) as u64;
        lemma_trim_front_suffix(a, limit);
        let k = a.len() - r.len();
        assert(r.len() > 0);
        assert forall|i: int| 0 <= i < r.len() implies #[trigger] r[i] == a[k + i] by {}
        assert(r.last() == p);
        assert(r[0].timestamp >= limit);
        assert forall|i: int| 0 <= i < r.len() implies newest(r) - #[trigger] r[i].timestamp
            <= look_behind by {
            assert(a[k] .timestamp <= a[k + i].timestamp);
        }
    } else {
        if a.len() == 2 {
            assert forall|i: int| 0 <= i < r.len() implies #[trigger] r[i] == a[1 + i] by {}
        }
        assert(r.last() == p);
    }
}

/// The point of channel `c` (0: temperature, 1: x, 2: y, 3: z).
pub open spec fn channel_point(m: SensorSampleMeasurement, c: int) -> Measurement {
    if c == 0 {
        m.t
    } else if c == 1 {
        m.x
    } else if c == 2 {
        m.y
    } else {
        m.z
    }
}

/// The trace of channel `c`: its point of each entry, in window order.
pub open spec fn trace(v: Seq<SensorSampleMeasurement>, c: int) -> Seq<Measurement> {
    Seq::new(v.len(), |i: int| channel_point(v[i], c))
}

/// The four traces that a read of window `v` hands out.
pub open spec fn is_snapshot_of(r: [Vec<Measurement>; 4], v: Seq<SensorSampleMeasurement>) -> bool {
    forall|c: int| 0 <= c < 4 ==> (#[trigger] r[c])@ == trace(v, c)
}

/// The most recent samples, as plotted points, within a span of timestamps.
pub struct MeasurementWindow {
    pub values: VecDeque<SensorSampleMeasurement>,
    pub look_behind: usize,
}

impl MeasurementWindow {
    /// Entries come in timestamp order, none older than `look_behind` before
    /// the newest, and each has its four points at its own timestamp.
    pub open spec fn wf(&self) -> bool {
        window_wf(self.values@, self.look_behind)
    }

    pub fn new_with_look_behind(look_behind: usize) -> (w: Self)
        ensures
            w.values@ == Seq::<SensorSampleMeasurement>::empty(),
            w.look_behind == look_behind,
            w.wf(),
    {
        Self { values: VecDeque::new(), look_behind }
    }

    /// Takes in one sample: a timestamp that goes back clears the window
    /// first; then entries too old for the look-behind span are evicted.
    pub fn add(&mut self, sensor_sample: SensorSample)
        ensures
            final(self).look_behind == old(self).look_behind,
            final(self).values@ == window_after_add(
                old(self).values@,
                old(self).look_behind,
                sensor_sample,
            ),
            old(self).wf() ==> final(self).wf(),
    {
        let n = self.values.len();
        if n > 0 {
            if sensor_sample.timestamp < self.values[n - 1].timestamp {
                self.values.clear();
            }
        }
        self.values.push_back(SensorSampleMeasurement::from(sensor_sample));
        let ghost taken = self.values@;
        let latest = self.values[self.values.len() - 1].timestamp;
        match latest.checked_sub(self.look_behind as u64) {
            Some(limit) => {
                while self.values.len() > 0 && self.values[0].timestamp < limit
                    invariant
                        self.look_behind == old(self).look_behind,
                        trim_front(self.values@, limit) == trim_front(taken, limit),
                    decreases self.values.len(),
                {
                    let ghost before = self.values@;
                    self.values.pop_front();
                    assert(self.values@ == before.drop_first());
                }
            },
            None => {
                if self.values.len() == 2 {
                    self.values.pop_front();
                }
            },
        }
        proof {
            if old(self).wf() {
                lemma_add_keeps_wf(old(self).values@, old(self).look_behind, sensor_sample);
            }
        }
    }

    /// The four channel traces (temperature, x, y, z), index-aligned with
    /// the window's entries.
    pub fn plot_values(&self) -> (r: [Vec<Measurement>; 4])
        ensures
            is_snapshot_of(r, self.values@),
            forall|c: int| 0 <= c < 4 ==> (#[trigger] r[c])@.len() == self.values@.len(),
            self.wf() ==> forall|c: int, i: int|
                0 <= c < 4 && 0 <= i < self.values@.len() ==> (#[trigger] r[c])@[i].x
                    == #[trigger] self.values@[i].timestamp,
    {
        let v = Ghost(self.values@);
        let mut t_plot: Vec<Measurement> = Vec::new();
        let mut x_plot: Vec<Measurement> = Vec::new();
        let mut y_plot: Vec<Measurement> = Vec::new();
        let mut z_plot: Vec<Measurement> = Vec::new();
        let n = self.values.len();
        let mut i: usize = 0;
        while i < n
            invariant
                n == v@.len(),
                v@ == self.values@,
                i <= n,
                t_plot@ == trace(v@.take(i as int), 0),
                x_plot@ == trace(v@.take(i as int), 1),
                y_plot@ == trace(v@.take(i as int), 2),
                z_plot@ == trace(v@.take(i as int), 3),
            decreases n - i,
        {
            let m = &self.values[i];
            t_plot.push(m.t);
            x_plot.push(m.x);
            y_plot.push(m.y);
            z_plot.push(m.z);
            i = i + 1;
            assert(t_plot@ =~= trace(v@.take(i as int), 0));
            assert(x_plot@ =~= trace(v@.take(i as int), 1));
            assert(y_plot@ =~= trace(v@.take(i as int), 2));
            assert(z_plot@ =~= trace(v@.take(i as int), 3));
        }
        assert(v@.take(n as int) =~= v@);
        let r = [t_plot, x_plot, y_plot, z_plot];
        assert(r[0] == t_plot && r[1] == x_plot && r[2] == y_plot && r[3] == z_plot);
        r
    }
}

} // verus!
