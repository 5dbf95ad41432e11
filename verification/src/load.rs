//! Load generation: when each worker makes its connections, and what the latencies come to.
//!
//! Times are in nanoseconds; points in time are counted from the common start of all workers.
use vstd::prelude::*;

verus! {

/// Whether a run makes no connections at all, since none are asked for or nobody makes them.
pub fn makes_no_connections(connections_per_second: u64, workers: usize) -> (r: bool)
    ensures
        r == (connections_per_second == 0 || workers == 0),
{
    connections_per_second == 0 || workers == 0
}

/// How many handshakes a server works on at once, if there is a limit; 0 stands for none.
pub fn handshake_permits(max_concurrent_handshakes: usize) -> (r: Option<usize>)
    ensures
        r == (if max_concurrent_handshakes > 0 {
            Some(max_concurrent_handshakes)
        } else {
            None
        }),
{
    if max_concurrent_handshakes > 0 {
        Some(max_concurrent_handshakes)
    } else {
        None
    }
}

/// When a worker makes its first attempt: the workers start one after the other, evenly over one
/// interval. The delay is a 64-bit number of nanoseconds.
pub open spec fn first_attempt(interval: u128, workers: usize, worker_index: usize) -> nat {
    (((interval as nat / workers as nat) * worker_index as nat) % 0x1_0000_0000_0000_0000) as nat
}

/// When the attempts of one worker are due.
#[derive(Clone, Copy, Debug, PartialEq, Eq, Structural)]
pub struct Schedule {
    /// When the next attempt is due.
    pub next_attempt: u128,
    /// No attempt is due from here on.
    pub stop_at: u128,
    /// The time between attempts.
    pub interval: u128,
}

/// What a worker does next.
#[derive(Clone, Copy, Debug, PartialEq, Eq, Structural)]
pub enum Pace {
    /// It is done.
    Finished,
    /// It makes an attempt, after waiting for so long.
    AttemptAfter(u128),
}

impl Schedule {
    /// What the worker does at the time `now`.
    pub open spec fn pace(self, now: u128) -> Pace {
        if self.next_attempt >= self.stop_at {
            Pace::Finished
        } else if self.next_attempt > now {
            Pace::AttemptAfter((self.next_attempt - now) as u128)
        } else {
            Pace::AttemptAfter(0)
        }
    }

    /// The schedule when an attempt has been made.
    pub open spec fn advanced(self) -> Self {
        Schedule { next_attempt: (self.next_attempt + self.interval) as u128, ..self }
    }

    /// The schedule of the given one of `workers` workers for a run of `duration_secs` seconds.
    pub fn new(interval: u128, duration_secs: u64, workers: usize, worker_index: usize) -> (r: Self)
        requires
            worker_index < workers,
        ensures
            r.next_attempt == first_attempt(interval, workers, worker_index),
            r.stop_at == duration_secs * 1_000_000_000,
            r.interval == interval,
    {
        let share: u128 = interval / (workers as u128);
        proof {
            lemma_stagger(interval as nat, workers as nat, worker_index as nat);
        }
        let offset: u128 = share * (worker_index as u128);
        assert((offset as u64) == offset % 0x1_0000_0000_0000_0000u128) by (bit_vector);
        let delay: u64 = #[verifier::truncate] (offset as u64);
        Schedule {
            next_attempt: delay as u128,
            stop_at: duration_secs as u128 * 1_000_000_000,
            interval,
        }
    }

    /// Decides what to do at the time `now`.
    pub fn poll(&self, now: u128) -> (r: Pace)
        ensures
            r == self.pace(now),
    {
        if self.next_attempt >= self.stop_at {
            Pace::Finished
        } else if self.next_attempt > now {
            Pace::AttemptAfter(self.next_attempt - now)
        } else {
            Pace::AttemptAfter(0)
        }
    }

    /// Plans the next attempt, when one has been made. An attempt that took longer than the
    /// interval does not move the later ones.
    pub fn advance(&mut self)
        requires
            old(self).next_attempt + old(self).interval <= u128::MAX,
        ensures
            *final(self) == old(self).advanced(),
    {
        self.next_attempt = self.next_attempt + self.interval;
    }
}

proof fn lemma_stagger(interval: nat, workers: nat, index: nat)
    requires
        index < workers,
    ensures
        (interval / workers) * index <= interval,
        interval > 0 ==> (interval / workers) * index < interval,
{
    assert((interval / workers) * index <= (interval / workers) * workers <= interval)
        by (nonlinear_arith)
        requires
            index < workers,
    ;
    if interval > 0 {
        assert((interval / workers) * index < interval) by (nonlinear_arith)
            requires
                index < workers,
                interval > 0,
                (interval / workers) * workers <= interval,
                0 <= interval / workers,
        ;
    }
}

/// With an interval that 64 bits can count, every worker makes its first attempt within one
/// interval, and each starts an equal share of it after the one before.
pub proof fn law_workers_start_evenly_within_one_interval(
    interval: u128,
    workers: usize,
    worker_index: usize,
)
    requires
        0 < interval <= u64::MAX,
        worker_index < workers,
    ensures
        first_attempt(interval, workers, worker_index) < interval,
        first_attempt(interval, workers, 0) == 0,
        worker_index > 0 ==> first_attempt(interval, workers, worker_index) == first_attempt(
            interval,
            workers,
            (worker_index - 1) as usize,
        ) + interval as nat / workers as nat,
{
    let share = interval as nat / workers as nat;
    lemma_stagger(interval as nat, workers as nat, worker_index as nat);
    assert(share * 0 == 0);
    if worker_index > 0 {
        lemma_stagger(interval as nat, workers as nat, (worker_index - 1) as nat);
        assert(share * worker_index as nat == share * (worker_index - 1) as nat + share)
            by (nonlinear_arith)
            requires
                worker_index > 0,
        ;
    }
}

/// When the attempt `k` places after the next one is due.
pub open spec fn attempt_time(s: Schedule, k: nat) -> nat {
    s.next_attempt as nat + k * s.interval as nat
}

/// The schedule when `k` attempts have been made.
pub open spec fn after_attempts(s: Schedule, k: nat) -> Schedule
    decreases k,
{
    if k == 0 {
        s
    } else {
        after_attempts(s, (k - 1) as nat).advanced()
    }
}

/// Whether a worker that looks at the clock at the times `clock` makes the attempt `k` places
/// after the next one: it makes all those before, and is not finished then.
pub open spec fn makes_attempt(s: Schedule, clock: spec_fn(nat) -> u128, k: nat) -> bool
    decreases k,
{
    &&& k > 0 ==> makes_attempt(s, clock, (k - 1) as nat)
    &&& after_attempts(s, k).pace(clock(k)) is AttemptAfter
}

/// How many attempts are due before a run stops, if there is any time between them.
pub open spec fn attempt_count(s: Schedule) -> nat
    recommends
        s.interval > 0,
{
    if s.next_attempt >= s.stop_at {
        0
    } else {
        ((s.stop_at - s.next_attempt + s.interval - 1) / s.interval as int) as nat
    }
}

/// The attempts of a worker are due an interval apart. An attempt is made exactly if it is due
/// before the run stops, whatever time the ones before have taken; and it is made when it is due,
/// or at once if that has passed.
pub proof fn law_attempts_are_made_while_due(
    s: Schedule,
    clock: spec_fn(nat) -> u128,
    k: nat,
)
    requires
        s.stop_at + s.interval <= u128::MAX,
    ensures
        attempt_time(s, 0) == s.next_attempt,
        attempt_time(s, k + 1) == attempt_time(s, k) + s.interval,
        makes_attempt(s, clock, k) <==> attempt_time(s, k) < s.stop_at,
        makes_attempt(s, clock, k) ==> {
            &&& after_attempts(s, k).next_attempt == attempt_time(s, k)
            &&& after_attempts(s, k).pace(clock(k)) == Pace::AttemptAfter(
                if attempt_time(s, k) > clock(k) {
                    (attempt_time(s, k) - clock(k)) as u128
                } else {
                    0
                },
            )
        },
        after_attempts(s, k).stop_at == s.stop_at,
        after_attempts(s, k).interval == s.interval,
    decreases k,
{
    let d = s.interval as nat;
    assert((k + 1) * d == k * d + d) by (nonlinear_arith);
    assert(0 * d == 0);
    if k > 0 {
        law_attempts_are_made_while_due(s, clock, (k - 1) as nat);
    }
}

/// If there is any time between the attempts of a worker, it makes a definite number of them.
pub proof fn law_number_of_attempts(s: Schedule, clock: spec_fn(nat) -> u128, k: nat)
    requires
        s.stop_at + s.interval <= u128::MAX,
        s.interval > 0,
    ensures
        makes_attempt(s, clock, k) <==> k < attempt_count(s),
{
    law_attempts_are_made_while_due(s, clock, k);
    let d = s.interval as int;
    if s.next_attempt < s.stop_at {
        let left: int = s.stop_at - s.next_attempt;
        let n = (left + d - 1) / d;
        let kk = k as int;
        assert(kk * d < left <==> kk < n) by (nonlinear_arith)
            requires
                d > 0,
                left > 0,
                kk >= 0,
                n == (left + d - 1) / d,
        ;
    }
}

/// Whether numbers do not decrease.
pub open spec fn ascending(s: Seq<u128>) -> bool {
    forall|i: int, j: int| 0 <= i <= j < s.len() ==> s[i] <= s[j]
}

/// All the numbers in a list of lists, one list after the other.
pub open spec fn joined(lists: Seq<Vec<u128>>) -> Seq<u128>
    decreases lists.len(),
{
    if lists.len() == 0 {
        Seq::empty()
    } else {
        joined(lists.drop_last()) + lists.last()@
    }
}

/// `slice::sort_unstable` on a vector of numbers: the same numbers, in ascending order.
#[verifier::external_body]
fn sort_unstable(v: &mut Vec<u128>)
    ensures
        ascending(final(v)@),
        final(v)@.to_multiset() == old(v)@.to_multiset(),
{
    v.sort_unstable();
}

/// The latencies of all workers of a run.
pub struct Latencies {
    /// How many connections were made.
    pub connections: u64,
    /// How long each took, shortest first.
    pub sorted: Vec<u128>,
}

/// The place in the order of `len` numbers at which a fraction of `numerator / denominator` of the
/// way from the first to the last is passed, to the nearest place; half-way between two, it is
/// the later one.
pub open spec fn nearest_rank(len: nat, numerator: nat, denominator: nat) -> nat {
    (((len - 1) * numerator * 2 + denominator) / (denominator as int * 2)) as nat
}

impl Latencies {
    /// The latency at a fraction of the way from the smallest to the longest.
    pub open spec fn quantile(self, numerator: nat, denominator: nat) -> u128 {
        self.at_rank(nearest_rank(self.sorted@.len(), numerator, denominator) as int)
    }

    /// The latency at a place in the order, or 0 if there is none at all.
    pub open spec fn at_rank(self, rank: int) -> u128 {
        if self.sorted@.len() == 0 {
            0
        } else {
            self.sorted@[rank]
        }
    }

    /// Collects the latencies that the workers have measured.
    pub fn collect(workers: Vec<Vec<u128>>) -> (r: Self)
        requires
            joined(workers@).len() <= usize::MAX,
        ensures
            r.connections == joined(workers@).len(),
            ascending(r.sorted@),
            r.sorted@.to_multiset() == joined(workers@).to_multiset(),
    {
        let mut connections: u64 = 0;
        let mut latencies: Vec<u128> = Vec::new();
        let mut i: usize = 0;
        proof {
            assert(workers@.take(0) =~= Seq::<Vec<u128>>::empty());
        }
        while i < workers.len()
            invariant
                i <= workers@.len(),
                latencies@ == joined(workers@.take(i as int)),
                connections == latencies@.len(),
                joined(workers@).len() <= usize::MAX,
            decreases workers@.len() - i,
        {
            proof {
                let head = workers@.take(i + 1);
                assert(head.drop_last() =~= workers@.take(i as int));
                assert(head.last() == workers@[i as int]);
                lemma_joined_grows(workers@, i + 1);
            }
            connections += workers[i].len() as u64;
            latencies.extend_from_slice(workers[i].as_slice());
            i += 1;
        }
        assert(workers@.take(i as int) =~= workers@);
        sort_unstable(&mut latencies);
        Latencies { connections, sorted: latencies }
    }

    /// The latency at the nearest place to a fraction of `numerator / denominator` of the way from
    /// the smallest to the longest, or 0 if there is none at all.
    pub fn percentile(&self, numerator: u32, denominator: u32) -> (r: u128)
        requires
            denominator > 0,
            self.sorted@.len() > 0 ==> nearest_rank(
                self.sorted@.len(),
                numerator as nat,
                denominator as nat,
            ) < self.sorted@.len(),
        ensures
            r == self.quantile(numerator as nat, denominator as nat),
    {
        if self.sorted.len() == 0 {
            return 0;
        }
        let last: u128 = self.sorted.len() as u128 - 1;
        proof {
            let (a, n): (int, int) = (last as int, numerator as int);
            assert(0 <= a * n * 2 <= 0x1_0000_0000_0000_0000 * 0x1_0000_0000 * 2)
                by (nonlinear_arith)
                requires
                    0 <= a <= 0x1_0000_0000_0000_0000,
                    0 <= n <= 0x1_0000_0000,
            ;
            assert(0 <= a * n <= a * n * 2) by (nonlinear_arith)
                requires
                    0 <= a,
                    0 <= n,
            ;
        }
        let rank: u128 = (last * numerator as u128 * 2 + denominator as u128) / (
        denominator as u128 * 2);
        self.sorted[rank as usize]
    }

    /// The longest latency, or 0 if there is none.
    pub fn max(&self) -> (r: u128)
        ensures
            r == self.at_rank(self.sorted@.len() - 1),
    {
        if self.sorted.len() == 0 {
            0
        } else {
            self.sorted[self.sorted.len() - 1]
        }
    }
}

proof fn lemma_joined_grows(lists: Seq<Vec<u128>>, k: int)
    requires
        0 <= k <= lists.len(),
    ensures
        joined(lists.take(k)).len() <= joined(lists).len(),
    decreases lists.len() - k,
{
    if k < lists.len() {
        assert(lists.take(k + 1).drop_last() =~= lists.take(k));
        lemma_joined_grows(lists, k + 1);
    } else {
        assert(lists.take(k) =~= lists);
    }
}

proof fn lemma_rank_ascends(len: nat, n1: nat, d1: nat, n2: nat, d2: nat)
    requires
        len > 0,
        d1 > 0,
        d2 > 0,
        n1 * d2 <= n2 * d1,
    ensures
        nearest_rank(len, n1, d1) <= nearest_rank(len, n2, d2),
{
    let m: int = len - 1;
    let r: int = (m * n1 * 2 + d1) / (d1 as int * 2);
    let (a, b, c, d): (int, int, int, int) = (n1 as int, d1 as int, n2 as int, d2 as int);
    assert(r * (b * 2) <= m * a * 2 + b && r >= 0) by (nonlinear_arith)
        requires
            r == (m * a * 2 + b) / (b * 2),
            b > 0,
            m >= 0,
            a >= 0,
    ;
    assert(m * (a * d) <= m * (c * b)) by (nonlinear_arith)
        requires
            m >= 0,
            a * d <= c * b,
    ;
    assert((r * (b * 2)) * d <= (m * a * 2 + b) * d) by (nonlinear_arith)
        requires
            r * (b * 2) <= m * a * 2 + b,
            d > 0,
    ;
    assert((r * (b * 2)) * d == (r * (d * 2)) * b) by (nonlinear_arith);
    assert((m * a * 2 + b) * d == m * (a * d) * 2 + b * d) by (nonlinear_arith);
    assert((m * c * 2 + d) * b == m * (c * b) * 2 + b * d) by (nonlinear_arith);
    assert(r * (d * 2) <= m * c * 2 + d) by (nonlinear_arith)
        requires
            (r * (d * 2)) * b <= (m * c * 2 + d) * b,
            b > 0,
    ;
    assert(r <= (m * c * 2 + d) / (d * 2)) by (nonlinear_arith)
        requires
            r * (d * 2) <= m * c * 2 + d,
            d > 0,
    ;
}

/// Every place that a fraction of at most 1 leads to exists. A fraction of 0 leads to the first
/// place, one of 1 to the last, and a larger fraction to no earlier place. A half of two leads to
/// the second.
pub proof fn law_ranks(len: nat, n1: nat, d1: nat, n2: nat, d2: nat)
    requires
        len > 0,
        d1 > 0,
        d2 > 0,
        n1 * d2 <= n2 * d1,
        n2 <= d2,
    ensures
        nearest_rank(len, n1, d1) <= nearest_rank(len, n2, d2) < len,
        nearest_rank(len, 0, d1) == 0,
        nearest_rank(len, d1, d1) == len - 1,
        nearest_rank(2, d1, d1 * 2) == 1,
{
    lemma_rank_ascends(len, n1, d1, n2, d2);
    let (m, d): (int, int) = (len - 1, d1 as int);
    assert((m * 0 * 2 + d) / (d * 2) == 0) by (nonlinear_arith)
        requires
            d > 0,
    ;
    assert((m * d * 2 + d) / (d * 2) == m) by (nonlinear_arith)
        requires
            d > 0,
            m >= 0,
    ;
    assert(((2 - 1) * d * 2 + d * 2) / ((d * 2) * 2) == 1) by (nonlinear_arith)
        requires
            d > 0,
    ;
    assert(n2 * 1 <= 1 * d2);
    lemma_rank_ascends(len, n2, d2, 1, 1);
    assert((m * 1 * 2 + 1) / 2 == m);
}

/// In a collection of latencies, a percentile is a latency that some worker has measured, and a
/// percentile of a larger fraction is no smaller. That of 0 is the smallest latency of all, that
/// of 1 the longest. In a collection without latencies every percentile is 0.
pub proof fn law_percentiles_ascend(
    l: Latencies,
    measured: Seq<u128>,
    n1: nat,
    d1: nat,
    n2: nat,
    d2: nat,
)
    requires
        ascending(l.sorted@),
        l.sorted@.to_multiset() == measured.to_multiset(),
        d1 > 0,
        d2 > 0,
        n1 * d2 <= n2 * d1,
        n2 <= d2,
    ensures
        l.sorted@.len() == measured.len(),
        l.quantile(n1, d1) <= l.quantile(n2, d2),
        measured.len() == 0 ==> l.quantile(n1, d1) == 0,
        measured.len() > 0 ==> {
            &&& measured.contains(l.quantile(n1, d1))
            &&& l.quantile(0, d1) == l.sorted@.first()
            &&& l.quantile(d1, d1) == l.sorted@.last()
            &&& forall|x: u128| #[trigger]
                measured.contains(x) ==> l.quantile(0, d1) <= x <= l.quantile(d1, d1)
        },
{
    broadcast use vstd::seq_lib::group_to_multiset_ensures;

    assert(l.sorted@.len() == l.sorted@.to_multiset().len());
    assert(measured.len() == measured.to_multiset().len());
    if measured.len() > 0 {
        law_ranks(measured.len(), n1, d1, n2, d2);
        assert(l.sorted@.contains(l.quantile(n1, d1)));
        assert(l.sorted@.to_multiset().count(l.quantile(n1, d1)) > 0);
        assert forall|x: u128| #[trigger] measured.contains(x) implies l.quantile(0, d1) <= x
            <= l.quantile(d1, d1) by {
            assert(measured.to_multiset().count(x) > 0);
            assert(l.sorted@.contains(x));
        }
    }
}

/// A worker's first attempt is due after its share of an interval for each worker before it, of
/// which the low 64 bits count.
pub proof fn law_first_attempt_is_staggered(interval: u128, workers: usize, worker_index: usize)
    requires
        worker_index < workers,
    ensures
        first_attempt(interval, workers, worker_index) <= u64::MAX,
        first_attempt(interval, workers, worker_index) <= (interval as nat / workers as nat)
            * worker_index as nat,
        ((interval as nat / workers as nat) * worker_index as nat - first_attempt(
            interval,
            workers,
            worker_index,
        )) % 0x1_0000_0000_0000_0000 == 0,
{
}

/// A worker is finished exactly if its next attempt is not due before the run stops. If it is not,
/// its wait ends when the attempt is due, or at once if that has passed.
pub proof fn law_worker_waits_until_due(s: Schedule, now: u128)
    ensures
        s.pace(now) is Finished <==> s.stop_at <= s.next_attempt,
        s.pace(now) matches Pace::AttemptAfter(wait) ==> {
            &&& s.next_attempt >= now ==> now + wait == s.next_attempt
            &&& s.next_attempt <= now ==> wait == 0
        },
{
}

/// The place that a fraction leads to is the nearest to the exact one: it is at most half a place
/// away, and if it is half a place away it is behind it.
pub proof fn law_rank_is_the_nearest(len: nat, numerator: nat, denominator: nat)
    requires
        len > 0,
        denominator > 0,
    ensures
        2 * nearest_rank(len, numerator, denominator) * denominator <= 2 * (len - 1) * numerator
            + denominator,
        2 * nearest_rank(len, numerator, denominator) * denominator > 2 * (len - 1) * numerator
            - denominator,
{
    let (m, n, d): (int, int, int) = (len - 1, numerator as int, denominator as int);
    let x: int = m * n * 2 + d;
    let r: int = x / (d * 2);
    assert(m * n >= 0) by (nonlinear_arith)
        requires
            m >= 0,
            n >= 0,
    ;
    assert(r >= 0 && r * (d * 2) <= x && x < r * (d * 2) + d * 2) by (nonlinear_arith)
        requires
            r == x / (d * 2),
            d > 0,
            x >= 0,
    ;
    assert(r * (d * 2) == 2 * r * d) by (nonlinear_arith);
    assert(m * n * 2 == 2 * m * n) by (nonlinear_arith);
}

/// A percentile is what stands in the order at the place nearest to the exact one, the later of two
/// that are equally near.
pub proof fn law_percentile_stands_at_the_nearest_place(
    l: Latencies,
    numerator: nat,
    denominator: nat,
    place: int,
)
    requires
        denominator > 0,
        0 <= place < l.sorted@.len(),
        2 * place * denominator <= 2 * (l.sorted@.len() - 1) * numerator + denominator,
        2 * place * denominator > 2 * (l.sorted@.len() - 1) * numerator - denominator,
    ensures
        l.quantile(numerator, denominator) == l.sorted@[place],
        l.at_rank(place) == l.sorted@[place],
{
    let len = l.sorted@.len();
    law_rank_is_the_nearest(len, numerator, denominator);
    let r = nearest_rank(len, numerator, denominator) as int;
    let d = denominator as int;
    let x: int = 2 * (len - 1) * numerator;
    assert(r == place) by (nonlinear_arith)
        requires
            d > 0,
            2 * place * d <= x + d,
            2 * place * d > x - d,
            2 * r * d <= x + d,
            2 * r * d > x - d,
    ;
}

/// Joining lists keeps every number in its place: a single list is itself, and what is joined in
/// two parts is one part behind the other.
pub proof fn law_joining_keeps_everything(a: Seq<Vec<u128>>, b: Seq<Vec<u128>>, one: Vec<u128>)
    ensures
        joined(seq![one]) == one@,
        joined(a + b) == joined(a) + joined(b),
        joined(Seq::empty()) == Seq::<u128>::empty(),
    decreases b.len(),
{
    assert(seq![one].drop_last() =~= Seq::<Vec<u128>>::empty());
    assert(joined(seq![one].drop_last()) =~= Seq::<u128>::empty());
    assert(seq![one].last() == one);
    assert(joined(seq![one]) =~= one@);
    if b.len() == 0 {
        assert(a + b =~= a);
        assert(joined(a) + joined(b) =~= joined(a));
    } else {
        law_joining_keeps_everything(a, b.drop_last(), one);
        assert((a + b).drop_last() =~= a + b.drop_last());
        assert((a + b).last() == b.last());
        assert(joined(a + b) =~= joined(a) + joined(b));
    }
}

/// In an ascending list no number is followed by a smaller one.
pub proof fn law_ascending_never_falls(s: Seq<u128>, i: int)
    requires
        ascending(s),
        0 <= i < s.len() - 1,
    ensures
        s[i] <= s[i + 1],
{
}

/// Making an attempt puts the next one off by an interval, and changes neither the interval nor
/// when the run stops.
pub proof fn law_attempt_puts_the_next_off_by_an_interval(s: Schedule)
    requires
        s.next_attempt + s.interval <= u128::MAX,
    ensures
        s.advanced().next_attempt - s.next_attempt == s.interval,
        s.advanced().interval == s.interval,
        s.advanced().stop_at == s.stop_at,
{
}

} // verus!
