use vstd::prelude::*;

verus! {

/// Length of one bucket, in seconds.
pub const SECONDS_PER_MINUTE: u64 = 60;

/// The last second of the year 9999 (UTC): later times would not render with a
/// four-digit year.
pub const LATEST_SECS: u64 = 253_402_300_799;

/// The start of the minute that holds `secs`.
pub open spec fn minute_spec(secs: u64) -> u64 {
    ((secs / 60) * 60) as u64
}

/// Truncates a time in seconds since the epoch to the start of its minute.
pub fn get_minute(secs: u64) -> (r: u64)
    ensures
        r == minute_spec(secs),
        r <= secs,
{
    (secs / SECONDS_PER_MINUTE) * SECONDS_PER_MINUTE
}

/// Whether `digit` is one of the ASCII digits `1` (0x31) to `5` (0x35), which name
/// the five response classes `1xx` .. `5xx`.
pub open spec fn is_class_digit(digit: u8) -> bool {
    0x31u8 <= digit && digit <= 0x35u8
}

/// One more, unless the counter is already at its largest value.
pub open spec fn incr(c: u64) -> u64 {
    if c < u64::MAX {
        (c + 1) as u64
    } else {
        c
    }
}

fn increment(c: u64) -> (r: u64)
    ensures
        r == incr(c),
{
    if c < u64::MAX {
        c + 1
    } else {
        c
    }
}

/// The response counts of one minute.
#[derive(Clone, Copy, Debug, PartialEq, Eq, Structural)]
pub struct Counters {
    /// Start of the minute, in seconds since the epoch.
    pub moment: u64,
    pub stats100: u64,
    pub stats200: u64,
    pub stats300: u64,
    pub stats400: u64,
    pub stats500: u64,
}

impl Counters {
    /// An empty bucket for the minute that starts at `moment`.
    pub open spec fn empty(moment: u64) -> Counters {
        Counters { moment, stats100: 0, stats200: 0, stats300: 0, stats400: 0, stats500: 0 }
    }

    /// The bucket after one observation of class `digit`; any other digit changes nothing.
    pub open spec fn bumped(self, digit: u8) -> Counters {
        if digit == 0x31u8 {
            Counters { stats100: incr(self.stats100), ..self }
        } else if digit == 0x32u8 {
            Counters { stats200: incr(self.stats200), ..self }
        } else if digit == 0x33u8 {
            Counters { stats300: incr(self.stats300), ..self }
        } else if digit == 0x34u8 {
            Counters { stats400: incr(self.stats400), ..self }
        } else if digit == 0x35u8 {
            Counters { stats500: incr(self.stats500), ..self }
        } else {
            self
        }
    }

    /// Sum of the five counters.
    pub open spec fn total(self) -> int {
        self.stats100 + self.stats200 + self.stats300 + self.stats400 + self.stats500
    }

    /// The five counters, classes `1xx` to `5xx` in order.
    pub open spec fn counts(self) -> Seq<u64> {
        seq![self.stats100, self.stats200, self.stats300, self.stats400, self.stats500]
    }

    /// An empty bucket for the minute that holds `now_secs`.
    pub fn new(now_secs: u64) -> (r: Counters)
        ensures
            r == Counters::empty(minute_spec(now_secs)),
    {
        Counters {
            moment: get_minute(now_secs),
            stats100: 0,
            stats200: 0,
            stats300: 0,
            stats400: 0,
            stats500: 0,
        }
    }

    /// Counts one observation of class `digit` (`0x31u8` to `0x35u8`).
    pub fn bump(&mut self, digit: u8)
        ensures
            *final(self) == old(self).bumped(digit),
    {
        if digit == 0x31u8 {
            self.stats100 = increment(self.stats100);
        } else if digit == 0x32u8 {
            self.stats200 = increment(self.stats200);
        } else if digit == 0x33u8 {
            self.stats300 = increment(self.stats300);
        } else if digit == 0x34u8 {
            self.stats400 = increment(self.stats400);
        } else if digit == 0x35u8 {
            self.stats500 = increment(self.stats500);
        }
    }
}

/// A window of per-minute buckets is well formed under capacity `k`: it is not
/// empty, holds at most `k` buckets, and their minutes strictly increase.
pub open spec fn window_wf(w: Seq<Counters>, k: nat) -> bool {
    &&& 1 <= w.len() <= k
    &&& forall|i: int| 0 <= i < w.len() ==> #[trigger] w[i].moment <= LATEST_SECS
    &&& forall|i: int, j: int| 0 <= i < j < w.len() ==> #[trigger] w[i].moment < #[trigger] w[j].moment
}

/// The window after one observation of class `digit` in the minute `minute`.
/// An observation of another class changes nothing. One whose minute is not after
/// the newest bucket's (a clock that went back) is merged into the newest bucket.
/// A new minute opens a bucket, and the oldest bucket leaves once more than `k` are held.
pub open spec fn pushed(w: Seq<Counters>, k: nat, digit: u8, minute: u64) -> Seq<Counters> {
    if !is_class_digit(digit) {
        w
    } else if minute <= w.last().moment {
        w.update(w.len() - 1, w.last().bumped(digit))
    } else {
        let grown = w.push(Counters::empty(minute).bumped(digit));
        if grown.len() > k {
            grown.drop_first()
        } else {
            grown
        }
    }
}

/// A bounded, oldest-first sequence of per-minute buckets.
pub struct CounterWindow {
    buckets: Vec<Counters>,
    capacity: usize,
}

impl View for CounterWindow {
    type V = Seq<Counters>;

    closed spec fn view(&self) -> Seq<Counters> {
        self.buckets@
    }
}

impl CounterWindow {
    /// The most buckets that the window keeps.
    pub closed spec fn capacity_spec(&self) -> nat {
        self.capacity as nat
    }

    pub closed spec fn wf(&self) -> bool {
        window_wf(self.buckets@, self.capacity as nat)
    }

    /// A window of capacity `capacity` holding one empty bucket for the minute of `now_secs`.
    pub fn new(capacity: usize, now_secs: u64) -> (r: CounterWindow)
        requires
            capacity >= 1,
            now_secs <= LATEST_SECS,
        ensures
            r.wf(),
            r.capacity_spec() == capacity,
            r@ == seq![Counters::empty(minute_spec(now_secs))],
    {
        let buckets = vec![Counters::new(now_secs)];
        CounterWindow { buckets, capacity }
    }

    pub fn capacity(&self) -> (r: usize)
        ensures
            r == self.capacity_spec(),
    {
        self.capacity
    }

    /// Records one observation of class `digit` made at `now_secs`.
    pub fn push(&mut self, digit: u8, now_secs: u64)
        requires
            old(self).wf(),
            now_secs <= LATEST_SECS,
        ensures
            final(self).wf(),
            final(self).capacity_spec() == old(self).capacity_spec(),
            final(self)@ == pushed(old(self)@, old(self).capacity_spec(), digit, minute_spec(now_secs)),
    {
        if !(0x31u8 <= digit && digit <= 0x35u8) {
            return;
        }
        let minute = get_minute(now_secs);
        let last = self.buckets.len() - 1;
        if minute <= self.buckets[last].moment {
            let mut b = self.buckets[last];
            b.bump(digit);
            self.buckets.set(last, b);
            return;
        }
        let mut fresh = Counters::new(now_secs);
        fresh.bump(digit);
        self.buckets.push(fresh);
        if self.buckets.len() > self.capacity {
            self.buckets.remove(0);
        }
        assert(self.buckets@ =~= pushed(old(self)@, old(self).capacity_spec(), digit, minute));
    }

    /// The buckets, oldest first.
    pub fn snapshot(&self) -> (r: &Vec<Counters>)
        requires
            self.wf(),
        ensures
            r@ == self@,
            window_wf(r@, self.capacity_spec()),
    {
        &self.buckets
    }
}

/// Pushing keeps a window well formed: whatever is observed, it never holds more than
/// `k` buckets, and their minutes still strictly increase.
pub proof fn lemma_push_keeps_window(w: Seq<Counters>, k: nat, digit: u8, minute: u64)
    requires
        window_wf(w, k),
        minute <= LATEST_SECS,
    ensures
        window_wf(pushed(w, k, digit, minute), k),
{
    let r = pushed(w, k, digit, minute);
    if is_class_digit(digit) && minute > w.last().moment {
        let grown = w.push(Counters::empty(minute).bumped(digit));
        assert forall|i: int, j: int| 0 <= i < j < grown.len() implies #[trigger] grown[i].moment
            < #[trigger] grown[j].moment by {
            if j < w.len() {
                assert(w[i].moment < w[j].moment);
            } else {
                assert(w[i].moment <= w.last().moment);
            }
        }
        if grown.len() > k {
            assert forall|i: int, j: int| 0 <= i < j < r.len() implies #[trigger] r[i].moment
                < #[trigger] r[j].moment by {
                assert(r[i] == grown[i + 1] && r[j] == grown[j + 1]);
            }
        }
    }
}

/// Once a full window sees a new minute, the oldest bucket leaves, and no other: the
/// others keep their order and the new minute's bucket comes last.
pub proof fn lemma_full_window_evicts_oldest(w: Seq<Counters>, k: nat, digit: u8, minute: u64)
    requires
        window_wf(w, k),
        w.len() == k,
        is_class_digit(digit),
        minute > w.last().moment,
    ensures
        pushed(w, k, digit, minute) == w.drop_first().push(Counters::empty(minute).bumped(digit)),
        pushed(w, k, digit, minute).len() == k,
{
    assert(w.push(Counters::empty(minute).bumped(digit)).drop_first() =~= w.drop_first().push(
        Counters::empty(minute).bumped(digit),
    ));
}

/// The window after the observations `events`, each a class digit and a time in
/// seconds, taken in order from `w`.
pub open spec fn replay(w: Seq<Counters>, k: nat, events: Seq<(u8, u64)>) -> Seq<Counters>
    decreases events.len(),
{
    if events.len() == 0 {
        w
    } else {
        pushed(replay(w, k, events.drop_last()), k, events.last().0, minute_spec(events.last().1))
    }
}

/// How many of `events` are of a class `1xx` .. `5xx` and fall in the minute `minute`.
pub open spec fn observed_in(events: Seq<(u8, u64)>, minute: u64) -> nat
    decreases events.len(),
{
    if events.len() == 0 {
        0
    } else {
        observed_in(events.drop_last(), minute) + if is_class_digit(events.last().0)
            && minute_spec(events.last().1) == minute {
            1nat
        } else {
            0nat
        }
    }
}

/// The latest time among `start` and `events`, where those times do not decrease.
pub open spec fn latest_time(start: u64, events: Seq<(u8, u64)>) -> u64 {
    if events.len() == 0 {
        start
    } else {
        events.last().1
    }
}

proof fn lemma_minute_monotone(a: u64, b: u64)
    requires
        a <= b,
    ensures
        minute_spec(a) <= minute_spec(b),
{
    assert((a / 60) * 60 <= (b / 60) * 60) by (nonlinear_arith)
        requires
            a <= b,
    ;
}

proof fn lemma_observed_bounded(events: Seq<(u8, u64)>, minute: u64)
    ensures
        observed_in(events, minute) <= events.len(),
    decreases events.len(),
{
    if events.len() > 0 {
        lemma_observed_bounded(events.drop_last(), minute);
    }
}

proof fn lemma_observed_none_after(events: Seq<(u8, u64)>, bound: u64, minute: u64)
    requires
        bound < minute,
        forall|i: int|
            0 <= i < events.len() && is_class_digit(#[trigger] events[i].0) ==> minute_spec(
                events[i].1,
            ) <= bound,
    ensures
        observed_in(events, minute) == 0,
    decreases events.len(),
{
    if events.len() > 0 {
        let e = events.drop_last();
        assert forall|i: int| 0 <= i < e.len() && is_class_digit(#[trigger] e[i].0) implies minute_spec(
            e[i].1,
        ) <= bound by {
            assert(e[i] == events[i]);
        }
        lemma_observed_none_after(e, bound, minute);
        assert(events.last() == events[events.len() - 1]);
    }
}

/// What holds of the window at every step of a replay from a fresh window.
spec fn replay_inv(w: Seq<Counters>, k: nat, start: u64, events: Seq<(u8, u64)>) -> bool {
    &&& window_wf(w, k)
    &&& w.last().moment <= minute_spec(latest_time(start, events))
    &&& forall|i: int|
        0 <= i < events.len() && is_class_digit(#[trigger] events[i].0) ==> minute_spec(events[i].1)
            <= w.last().moment
    &&& forall|j: int| 0 <= j < w.len() ==> (#[trigger] w[j]).total() == observed_in(events, w[j].moment)
}

proof fn lemma_replay_inv(start: u64, k: nat, events: Seq<(u8, u64)>)
    requires
        k >= 1,
        start <= LATEST_SECS,
        events.len() < u64::MAX,
        forall|i: int| 0 <= i < events.len() ==> start <= #[trigger] events[i].1 <= LATEST_SECS,
        forall|i: int, j: int| 0 <= i < j < events.len() ==> #[trigger] events[i].1 <= #[trigger] events[j].1,
    ensures
        replay_inv(replay(seq![Counters::empty(minute_spec(start))], k, events), k, start, events),
    decreases events.len(),
{
    let w0 = seq![Counters::empty(minute_spec(start))];
    if events.len() == 0 {
        assert(w0.last() == w0[0]);
        return;
    }
    let prev = events.drop_last();
    let e = events.last();
    assert forall|i: int| 0 <= i < prev.len() implies start <= #[trigger] prev[i].1 <= LATEST_SECS by {
        assert(prev[i] == events[i]);
    }
    assert forall|i: int, j: int| 0 <= i < j < prev.len() implies #[trigger] prev[i].1
        <= #[trigger] prev[j].1 by {
        assert(prev[i] == events[i] && prev[j] == events[j]);
    }
    lemma_replay_inv(start, k, prev);
    let w = replay(w0, k, prev);
    let r = replay(w0, k, events);
    let d = e.0;
    let m = minute_spec(e.1);
    assert(r == pushed(w, k, d, m));
    assert(e == events[events.len() - 1]);
    assert(start <= e.1 <= LATEST_SECS);
    // The new observation comes no earlier than any before it.
    assert(latest_time(start, prev) <= e.1) by {
        if prev.len() > 0 {
            assert(prev.last() == events[prev.len() - 1]);
        }
    }
    lemma_minute_monotone(latest_time(start, prev), e.1);
    assert(minute_spec(e.1) <= e.1);
    lemma_push_keeps_window(w, k, d, m);
    lemma_observed_bounded(prev, w.last().moment);
    assert forall|i: int| 0 <= i < prev.len() implies #[trigger] events[i] == prev[i] by {}
    if !is_class_digit(d) {
        assert(r == w);
        assert forall|j: int| 0 <= j < r.len() implies (#[trigger] r[j]).total() == observed_in(
            events,
            r[j].moment,
        ) by {
            assert(observed_in(events, r[j].moment) == observed_in(prev, r[j].moment));
        }
        assert forall|i: int| 0 <= i < events.len() && is_class_digit(#[trigger] events[i].0)
            implies minute_spec(events[i].1) <= r.last().moment by {
            if i < prev.len() {
                assert(prev[i] == events[i]);
            }
        }
    } else if m <= w.last().moment {
        let li = w.len() - 1;
        let last = w[li];
        assert(last == w.last());
        assert(m == last.moment);
        assert(last.total() == observed_in(prev, last.moment));
        assert(last.bumped(d).total() == last.total() + 1);
        assert forall|j: int| 0 <= j < r.len() implies (#[trigger] r[j]).total() == observed_in(
            events,
            r[j].moment,
        ) by {
            if j < li {
                assert(w[j].moment < w[li].moment);
                assert(r[j] == w[j]);
            }
        }
        assert(r.last() == last.bumped(d));
        assert forall|i: int| 0 <= i < events.len() && is_class_digit(#[trigger] events[i].0)
            implies minute_spec(events[i].1) <= r.last().moment by {
            if i < prev.len() {
                assert(prev[i] == events[i]);
            }
        }
    } else {
        let fresh = Counters::empty(m).bumped(d);
        let grown = w.push(fresh);
        lemma_observed_none_after(prev, w.last().moment, m);
        assert(fresh.total() == 1);
        assert forall|j: int| 0 <= j < grown.len() implies (#[trigger] grown[j]).total() == observed_in(
            events,
            grown[j].moment,
        ) by {
            if j < w.len() {
                assert(w[j].moment <= w.last().moment);
                assert(grown[j] == w[j]);
            }
        }
        assert forall|i: int| 0 <= i < events.len() && is_class_digit(#[trigger] events[i].0)
            implies minute_spec(events[i].1) <= grown.last().moment by {
            if i < prev.len() {
                assert(prev[i] == events[i]);
            }
        }
        if grown.len() > k {
            assert(r == grown.drop_first());
            assert forall|j: int| 0 <= j < r.len() implies (#[trigger] r[j]).total() == observed_in(
                events,
                r[j].moment,
            ) by {
                assert(r[j] == grown[j + 1]);
            }
            assert(r.last() == grown.last());
        } else {
            assert(r == grown);
        }
    }
}

/// Starting from a fresh window made at `start`, and with a clock that does not go
/// back, the five counters of every retained bucket add up to the number of
/// observations of a class `1xx` .. `5xx` made in that bucket's minute.
pub proof fn lemma_bucket_totals(start: u64, k: nat, events: Seq<(u8, u64)>)
    requires
        k >= 1,
        start <= LATEST_SECS,
        events.len() < u64::MAX,
        forall|i: int| 0 <= i < events.len() ==> start <= #[trigger] events[i].1 <= LATEST_SECS,
        forall|i: int, j: int| 0 <= i < j < events.len() ==> #[trigger] events[i].1 <= #[trigger] events[j].1,
    ensures
        ({
            let w = replay(seq![Counters::empty(minute_spec(start))], k, events);
            &&& window_wf(w, k)
            &&& forall|j: int| 0 <= j < w.len() ==> (#[trigger] w[j]).total() == observed_in(events, w[j].moment)
        }),
{
    lemma_replay_inv(start, k, events);
}

} // verus!
