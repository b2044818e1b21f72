//! A bounded time series of samples: once it holds `capacity` points, each
//! new point evicts the oldest one.

use std::collections::VecDeque;
use vstd::prelude::*;

verus! {

/// One sample of a series: when it was taken and what was measured.
#[derive(Clone, Copy, Debug, PartialEq)]
pub struct DataPoint<T> {
    pub time: T,
    pub value: T,
}

/// The most points a series made with `capacity` ever holds: a series always
/// keeps the point pushed last, so a capacity of zero behaves like one.
pub open spec fn window(capacity: nat) -> nat {
    if capacity == 0 { 1 } else { capacity }
}

/// The contents of a series after pushing `p` onto contents `s`: the oldest
/// point is evicted when the series already holds `capacity` points or more.
pub open spec fn ring_push<T>(s: Seq<DataPoint<T>>, capacity: nat, p: DataPoint<T>) -> Seq<DataPoint<T>> {
    if s.len() >= capacity && s.len() > 0 {
        s.drop_first().push(p)
    } else {
        s.push(p)
    }
}

/// The last `n` elements of `s` (all of them when it has no more than `n`).
pub open spec fn keep_last<A>(s: Seq<A>, n: nat) -> Seq<A> {
    if s.len() <= n { s } else { s.skip(s.len() - n) }
}

/// The contents after pushing every point of `ps`, in order, onto contents `s`.
pub open spec fn push_all<T>(s: Seq<DataPoint<T>>, capacity: nat, ps: Seq<DataPoint<T>>) -> Seq<DataPoint<T>>
    decreases ps.len(),
{
    if ps.len() == 0 {
        s
    } else {
        ring_push(push_all(s, capacity, ps.drop_last()), capacity, ps.last())
    }
}

/// A series keeps exactly the latest `window(capacity)` points pushed: pushing
/// points `ps` onto contents `s` (as a series holds them) leaves the last
/// `window(capacity)` points of `s` followed by `ps`.
pub proof fn lemma_series_keeps_latest_window<T>(s: Seq<DataPoint<T>>, capacity: nat, ps: Seq<DataPoint<T>>)
    requires
        s.len() <= window(capacity),
    ensures
        push_all(s, capacity, ps) == keep_last(s + ps, window(capacity)),
    decreases ps.len(),
{
    let w = window(capacity);
    if ps.len() == 0 {
        assert(s + ps =~= s);
    } else {
        let init = ps.drop_last();
        lemma_series_keeps_latest_window(s, capacity, init);
        let prev = push_all(s, capacity, init);
        let all = s + ps;
        assert(s + init =~= all.drop_last());
        assert(all.drop_last().push(ps.last()) =~= all);
        if all.drop_last().len() <= w {
            if prev.len() >= capacity && prev.len() > 0 {
                assert(prev.len() == w);
                assert(prev.drop_first().push(ps.last()) =~= all.skip(all.len() - w));
            } else {
                assert(prev.push(ps.last()) =~= keep_last(all, w));
            }
        } else {
            assert(prev.len() == w);
            assert(prev.drop_first().push(ps.last()) =~= all.skip(all.len() - w));
        }
    }
}

/// Reading the latest point right after a push gives back the point pushed.
pub proof fn lemma_push_then_latest<T>(s: Seq<DataPoint<T>>, capacity: nat, p: DataPoint<T>)
    ensures
        ring_push(s, capacity, p).last() == p,
        ring_push(s, capacity, p).len() > 0,
{
}

/// A series of at most `window(capacity)` points, oldest first.
pub struct TimeSeries<T> {
    data: VecDeque<DataPoint<T>>,
    capacity: usize,
}

impl<T> View for TimeSeries<T> {
    type V = Seq<DataPoint<T>>;

    closed spec fn view(&self) -> Seq<DataPoint<T>> {
        self.data@
    }
}

impl<T> TimeSeries<T> {
    #[verifier::type_invariant]
    spec fn bounded(&self) -> bool {
        self.data@.len() <= window(self.capacity as nat)
    }

    /// The capacity the series was made with.
    pub closed spec fn spec_capacity(&self) -> usize {
        self.capacity
    }

    /// An empty series that keeps at most `capacity` points.
    pub fn new(capacity: usize) -> (s: Self)
        ensures
            s@ == Seq::<DataPoint<T>>::empty(),
            s.spec_capacity() == capacity,
    {
        TimeSeries { data: VecDeque::with_capacity(capacity), capacity }
    }

    /// Appends a point, evicting the oldest one when the series is full.
    pub fn push(&mut self, time: T, value: T)
        ensures
            final(self)@ == ring_push(old(self)@, old(self).spec_capacity() as nat, DataPoint { time, value }),
            final(self).spec_capacity() == old(self).spec_capacity(),
            final(self)@.len() <= window(final(self).spec_capacity() as nat),
    {
        proof { use_type_invariant(&*self); }
        let mut data: VecDeque<DataPoint<T>> = VecDeque::new();
        std::mem::swap(&mut data, &mut self.data);
        if data.len() >= self.capacity {
            let _ = data.pop_front();
        }
        data.push_back(DataPoint { time, value });
        self.data = data;
    }

    /// The point pushed last, if any.
    pub fn latest(&self) -> (r: Option<&DataPoint<T>>)
        ensures
            r is None <==> self@.len() == 0,
            r matches Some(p) ==> *p == self@.last(),
    {
        let n = self.data.len();
        if n == 0 {
            None
        } else {
            Some(&self.data[n - 1])
        }
    }

    /// The number of points held.
    pub fn len(&self) -> (n: usize)
        ensures
            n == self@.len(),
    {
        self.data.len()
    }

    /// Whether the series holds no point.
    pub fn is_empty(&self) -> (b: bool)
        ensures
            b <==> self@.len() == 0,
    {
        self.data.len() == 0
    }
}

impl<T: Copy> TimeSeries<T> {
    /// The points as `(time, value)` pairs, oldest first.
    pub fn as_chart_data(&self) -> (v: Vec<(T, T)>)
        ensures
            v@ == self@.map_values(|p: DataPoint<T>| (p.time, p.value)),
    {
        let n = self.data.len();
        let mut v: Vec<(T, T)> = Vec::new();
        let mut i: usize = 0;
        while i < n
            invariant
                n == self@.len(),
                i <= n,
                v@ == self@.take(i as int).map_values(|p: DataPoint<T>| (p.time, p.value)),
            decreases n - i,
        {
            let p = &self.data[i];
            v.push((p.time, p.value));
            assert(self@.take(i + 1) == self@.take(i as int).push(self@[i as int]));
            i = i + 1;
        }
        assert(self@.take(n as int) == self@);
        v
    }

    /// The times of the oldest and of the latest point, if any.
    pub fn time_range(&self) -> (r: Option<(T, T)>)
        ensures
            r is None <==> self@.len() == 0,
            r matches Some(t) ==> t == (self@.first().time, self@.last().time),
    {
        let n = self.data.len();
        if n == 0 {
            return None;
        }
        let first = self.data[0].time;
        let last = self.data[n - 1].time;
        Some((first, last))
    }
}

impl TimeSeries<u64> {
    /// The largest value held, if any.
    pub fn max_value(&self) -> (m: Option<u64>)
        ensures
            m is None <==> self@.len() == 0,
            m matches Some(v) ==> (exists|i: int| 0 <= i < self@.len() && #[trigger] self@[i].value == v)
                && (forall|i: int| 0 <= i < self@.len() ==> #[trigger] self@[i].value <= v),
    {
        let n = self.data.len();
        if n == 0 {
            return None;
        }
        let mut best = self.data[0].value;
        assert(self@[0].value == best);
        let mut i: usize = 1;
        while i < n
            invariant
                n == self@.len(),
                1 <= i <= n,
                exists|j: int| 0 <= j < i && #[trigger] self@[j].value == best,
                forall|j: int| 0 <= j < i ==> #[trigger] self@[j].value <= best,
            decreases n - i,
        {
            let v = self.data[i].value;
            if v > best {
                best = v;
                assert(self@[i as int].value == best);
            }
            i = i + 1;
        }
        Some(best)
    }
}

} // verus!
