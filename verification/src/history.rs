use vstd::prelude::*;

use std::collections::VecDeque;

verus! {

/// How long a sample stays in the history, in nanoseconds (one minute).
pub const WINDOW_NANOS: u64 = 60_000_000_000;

/// A graph sample together with the moment it was taken, in nanoseconds on a
/// monotonic clock.
pub struct Sample<T> {
    pub time: u64,
    pub item: T,
}

/// How long before `now` the moment `time` lies; zero for moments after `now`.
pub open spec fn age(now: u64, time: u64) -> int {
    if now >= time {
        now - time
    } else {
        0
    }
}

/// Whether a sample taken at `time` is still shown at `now`.
pub open spec fn in_window(now: u64, time: u64) -> bool {
    age(now, time) < WINDOW_NANOS
}

/// The predicate that keeps the samples still shown at `now`.
pub open spec fn recent<T>(now: u64) -> spec_fn(Sample<T>) -> bool {
    |s: Sample<T>| in_window(now, s.time)
}

/// The samples that the graphs draw, oldest first, none older than one minute.
pub struct GraphHistory<T> {
    samples: VecDeque<Sample<T>>,
}

impl<T> View for GraphHistory<T> {
    type V = Seq<Sample<T>>;

    closed spec fn view(&self) -> Seq<Sample<T>> {
        self.samples@
    }
}

impl<T> GraphHistory<T> {
    /// An empty history.
    pub fn new() -> (history: Self)
        ensures
            history@ == Seq::<Sample<T>>::empty(),
    {
        GraphHistory { samples: VecDeque::new() }
    }

    /// The samples, oldest first.
    pub fn samples(&self) -> (samples: &VecDeque<Sample<T>>)
        ensures
            samples@ == self@,
    {
        &self.samples
    }

    /// The number of samples held.
    pub fn len(&self) -> (n: usize)
        ensures
            n == self@.len(),
    {
        self.samples.len()
    }

    /// Appends a sample, then drops every sample that is one minute old or
    /// older at `now`; the order of the rest is kept.
    pub fn push(&mut self, sample: Sample<T>, now: u64)
        ensures
            final(self)@ == old(self)@.push(sample).filter(recent(now)),
    {
        self.samples.push_back(sample);
        let ghost all = self.samples@;
        let mut kept: VecDeque<Sample<T>> = VecDeque::new();
        let n = self.samples.len();
        let mut k: usize = 0;
        while k < n
            invariant
                n == all.len(),
                k <= n,
                self.samples@ == all.subrange(k as int, n as int),
                kept@ == all.take(k as int).filter(recent(now)),
            decreases n - k,
        {
            let ghost before = self.samples@;
            let front = self.samples.pop_front();
            match front {
                Some(s) => {
                    proof {
                        assert(s == all[k as int]);
                        assert(all.take(k as int + 1).drop_last() == all.take(k as int));
                        reveal_with_fuel(Seq::filter, 1);
                    }
                    let keep = if s.time <= now {
                        now - s.time < WINDOW_NANOS
                    } else {
                        true
                    };
                    if keep {
                        kept.push_back(s);
                    }
                },
                None => {},
            }
            k = k + 1;
        }
        proof {
            assert(all.take(n as int) == all);
        }
        self.samples = kept;
    }
}

/// After a push at `now`, the history holds only samples less than a minute old,
/// and it holds every such sample that was there, or was pushed, in the same order.
pub proof fn lemma_push_keeps_the_last_minute<T>(before: Seq<Sample<T>>, sample: Sample<T>, now: u64)
    ensures
        forall|i: int|
            0 <= i < before.push(sample).filter(recent(now)).len() ==> in_window(
                now,
                #[trigger] before.push(sample).filter(recent(now))[i].time,
            ),
        forall|i: int|
            0 <= i < before.push(sample).len() && in_window(now, before.push(sample)[i].time)
                ==> before.push(sample).filter(recent(now)).contains(
                #[trigger] before.push(sample)[i],
            ),
        in_window(now, sample.time) ==> before.push(sample).filter(recent(now)).last() == sample,
{
    let all = before.push(sample);
    let kept = all.filter(recent::<T>(now));
    assert forall|i: int| 0 <= i < kept.len() implies in_window(now, #[trigger] kept[i].time) by {
        all.lemma_filter_pred(recent::<T>(now), i);
    }
    assert forall|i: int| 0 <= i < all.len() && in_window(now, all[i].time) implies kept.contains(
        #[trigger] all[i],
    ) by {
        all.lemma_filter_contains(recent::<T>(now), i);
    }
    reveal_with_fuel(Seq::filter, 1);
    assert(all.drop_last() == before);
}

/// A sample stays in the history exactly while it is less than a minute old: a
/// sample from `time <= now` is kept just when `now - time < WINDOW_NANOS`, and a
/// sample stamped after `now` is kept.
pub proof fn lemma_window_is_one_minute<T>(now: u64, s: Sample<T>)
    ensures
        s.time <= now ==> (recent::<T>(now)(s) <==> now - s.time < WINDOW_NANOS),
        s.time > now ==> recent::<T>(now)(s),
{
}

/// A push keeps exactly the samples under a minute old: a sample of the history
/// or the new one is in the result just when it is less than `WINDOW_NANOS` old
/// (or stamped after `now`).
pub proof fn lemma_push_keeps_exactly_recent<T>(before: Seq<Sample<T>>, sample: Sample<T>, now: u64)
    ensures
        forall|i: int|
            0 <= i < before.push(sample).filter(recent(now)).len() ==> {
                let t = #[trigger] before.push(sample).filter(recent(now))[i].time;
                t <= now ==> now - t < WINDOW_NANOS
            },
        forall|i: int|
            0 <= i < before.push(sample).len() && (before.push(sample)[i].time > now || now
                - before.push(sample)[i].time < WINDOW_NANOS) ==> before.push(sample).filter(
                recent(now),
            ).contains(#[trigger] before.push(sample)[i]),
{
    let all = before.push(sample);
    let kept = all.filter(recent::<T>(now));
    assert forall|i: int| 0 <= i < kept.len() implies ({
        let t = #[trigger] kept[i].time;
        t <= now ==> now - t < WINDOW_NANOS
    }) by {
        all.lemma_filter_pred(recent::<T>(now), i);
    }
    assert forall|i: int|
        0 <= i < all.len() && (all[i].time > now || now - all[i].time < WINDOW_NANOS) implies kept.contains(
        #[trigger] all[i],
    ) by {
        all.lemma_filter_contains(recent::<T>(now), i);
    }
}

} // verus!
