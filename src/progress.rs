//! The wrapper: hands the inner sequence's items through unchanged and
//! decides, pull by pull, which frames to emit.
use crate::meter::{meter_text, render_meter};
use vstd::prelude::*;
use vstd::std_specs::iter::IteratorSpec;

verus! {

/// Width of the bar, in cells.
pub const BAR_LENGTH: u8 = 15;

/// Least time between two periodic frames, in nanoseconds (150 ms).
pub const MIN_INTERVAL_NANOS: u64 = 150_000_000;

/// std's `Instant`, carried unopened as the moment the wrapper was made.
#[verifier::external_type_specification]
#[verifier::external_body]
pub struct ExInstant(std::time::Instant);

/// Relies on `Instant::now`: a reading of the monotonic clock, of which
/// nothing is known.
pub assume_specification[ std::time::Instant::now ]() -> std::time::Instant;

/// Relies on `Instant::elapsed`: the time since the reading, of which nothing
/// is known.
pub assume_specification[ std::time::Instant::elapsed ](i: &std::time::Instant) -> std::time::Duration;

/// Relies on `Duration::as_nanos`: the whole duration in nanoseconds.
pub assume_specification[ std::time::Duration::as_nanos ](d: &std::time::Duration) -> u128;

/// Relies on `Iterator::size_hint`: the sequence's own estimate of how many
/// items are left, which may be wrong; nothing is promised of it.
#[verifier::external_body]
fn size_hint_of<I: Iterator>(iter: &I) -> (usize, Option<usize>) {
    iter.size_hint()
}

/// Nanoseconds since `start`, as far as a `u64` holds them.
fn elapsed_nanos(start: &std::time::Instant) -> u64 {
    let nanos = start.elapsed().as_nanos();
    if nanos > u64::MAX as u128 {
        u64::MAX
    } else {
        nanos as u64
    }
}

/// Whether a pull at `now` is due a periodic frame, the last one having been
/// drawn at `last` (both in nanoseconds since the wrapper was made).
pub open spec fn frame_due(last: u64, now: u64) -> bool {
    now > last + MIN_INTERVAL_NANOS
}

/// What one pull writes: a periodic frame for `count` when one is due, then,
/// if the inner sequence came to its end, a last frame for `count` (the items
/// it produced) and a line feed.
pub open spec fn pull_text(count: nat, total: nat, last: u64, now: u64, ended: bool) -> Seq<u8> {
    (if frame_due(last, now) {
        meter_text(BAR_LENGTH as nat, count, total, now as nat)
    } else {
        Seq::empty()
    }) + (if ended {
        meter_text(BAR_LENGTH as nat, count, total, now as nat) + seq![10u8]
    } else {
        Seq::empty()
    })
}

struct Tally<T> {
    count: usize,
    yielded: Ghost<Seq<T>>,
    exhausted: Ghost<bool>,
}

impl<T> Tally<T> {
    #[verifier::type_invariant]
    spec fn matches(&self) -> bool {
        &&& self.yielded@.len() <= self.count
        &&& !self.exhausted@ ==> self.count == self.yielded@.len()
    }
}

/// A sequence that shows progress while it is consumed.
pub struct Progress<I: Iterator> {
    iter: I,
    tally: Tally<I::Item>,
    total: usize,
    start_instant: std::time::Instant,
    last_render: u64,
}

impl<I: Iterator> Progress<I> {
    /// The wrapped sequence.
    pub closed spec fn inner(&self) -> I {
        self.iter
    }

    pub closed spec fn spec_count(&self) -> usize {
        self.tally.count
    }

    pub closed spec fn spec_total(&self) -> usize {
        self.total
    }

    /// The moment the wrapper was made, from which all times are measured.
    pub closed spec fn start(&self) -> std::time::Instant {
        self.start_instant
    }

    /// When the last periodic frame was drawn, in nanoseconds since the
    /// wrapper was made.
    pub closed spec fn last_render(&self) -> u64 {
        self.last_render
    }

    /// The items handed out so far.
    pub closed spec fn yielded(&self) -> Seq<I::Item> {
        self.tally.yielded@
    }

    /// Whether a pull has found the inner sequence at its end.
    pub closed spec fn exhausted(&self) -> bool {
        self.tally.exhausted@
    }

    /// The count agrees with the items handed out: it is their number until
    /// the end is found, and never less.
    pub open spec fn tallied(&self) -> bool {
        &&& self.yielded().len() <= self.count()
        &&& !self.exhausted() ==> self.count() == self.yielded().len()
    }

    /// A wrapper around `input` before any pull: nothing counted, handed out
    /// or drawn yet.
    pub open spec fn fresh(&self, input: I) -> bool {
        &&& self.inner() == input
        &&& self.count() == 0
        &&& self.last_render() == 0
        &&& self.yielded() == Seq::<I::Item>::empty()
        &&& !self.exhausted()
        &&& self.tallied()
    }

    /// How a pull at `now` that returned `r` takes the wrapper from `self` to
    /// `after` and its output from `out_before` to `out_after`.
    pub open spec fn pulled(
        &self,
        after: &Self,
        now: u64,
        r: Option<I::Item>,
        out_before: Seq<u8>,
        out_after: Seq<u8>,
    ) -> bool {
        &&& after.count() == self.count() + 1
        &&& after.total() == self.total()
        &&& after.start() == self.start()
        &&& after.last_render() == if frame_due(self.last_render(), now) {
            now
        } else {
            self.last_render()
        }
        &&& after.yielded() == if r is Some {
            self.yielded().push(r->0)
        } else {
            self.yielded()
        }
        &&& after.exhausted() == (self.exhausted() || r is None)
        &&& out_after == out_before + pull_text(
            self.count() as nat,
            self.total() as nat,
            self.last_render(),
            now,
            r is None,
        )
    }

    /// Pulls made so far, the one that found the end included.
    #[verifier::when_used_as_spec(spec_count)]
    pub fn count(&self) -> (r: usize)
        ensures
            r == self.spec_count(),
    {
        self.tally.count
    }

    /// The length captured from the inner sequence's estimate when the
    /// wrapper was made.
    #[verifier::when_used_as_spec(spec_total)]
    pub fn total(&self) -> (r: usize)
        ensures
            r == self.spec_total(),
    {
        self.total
    }

    /// Pulls the next item at `now`, nanoseconds since the wrapper was made,
    /// and appends to `out` what is to be shown: a periodic frame if more than
    /// the minimum interval has passed since the last one, and, once the
    /// inner sequence is at its end, a last frame with the number of items
    /// produced and a line feed. The item is the inner sequence's own, so
    /// the items handed out followed by those the inner sequence has left
    /// stay what they were.
    pub fn next_at(&mut self, now: u64, out: &mut Vec<u8>) -> (r: Option<I::Item>)
        requires
            old(self).count() < usize::MAX,
        ensures
            old(self).pulled(final(self), now, r, old(out)@, final(out)@),
            final(self).tallied(),
            final(self).inner().obeys_prophetic_iter_laws() == old(self).inner().obeys_prophetic_iter_laws(),
            old(self).inner().obeys_prophetic_iter_laws() ==> if old(self).inner().remaining().len() > 0 {
                &&& r == Some(old(self).inner().remaining()[0])
                &&& final(self).inner().remaining() == old(self).inner().remaining().drop_first()
            } else {
                &&& r is None
                &&& final(self).inner().remaining() == old(self).inner().remaining()
            },
            old(self).inner().obeys_prophetic_iter_laws() ==> final(self).yielded()
                + final(self).inner().remaining() == old(self).yielded() + old(self).inner().remaining(),
    {
        proof {
            use_type_invariant(&self.tally);
        }
        let count = self.tally.count;
        if now > self.last_render && now - self.last_render > MIN_INTERVAL_NANOS {
            render_meter(BAR_LENGTH, count, self.total, now, out);
            self.last_render = now;
        }
        let r = self.iter.next();
        let ghost got = r;
        let ghost yielded = if got is Some {
            self.tally.yielded@.push(got->0)
        } else {
            self.tally.yielded@
        };
        let ghost exhausted = self.tally.exhausted@ || got is None;
        self.tally = Tally { count: count + 1, yielded: Ghost(yielded), exhausted: Ghost(exhausted) };
        if r.is_none() {
            render_meter(BAR_LENGTH, count, self.total, now, out);
            out.push(10u8);
        }
        proof {
            assert(out@ =~= old(out)@ + pull_text(
                count as nat,
                self.total as nat,
                old(self).last_render,
                now,
                got is None,
            ));
        }
        proof {
            use_type_invariant(&self.tally);
            if old(self).iter.obeys_prophetic_iter_laws() && got is Some {
                assert(self.tally.yielded@ + self.iter.remaining() =~= old(self).tally.yielded@
                    + old(self).iter.remaining());
            }
        }
        r
    }

    /// Pulls the next item as `next_at` does, at the time that the clock
    /// gives.
    pub fn next(&mut self, out: &mut Vec<u8>) -> (r: Option<I::Item>)
        requires
            old(self).count() < usize::MAX,
        ensures
            exists|now: u64| old(self).pulled(final(self), now, r, old(out)@, final(out)@),
            final(self).tallied(),
            final(self).inner().obeys_prophetic_iter_laws() == old(self).inner().obeys_prophetic_iter_laws(),
            old(self).inner().obeys_prophetic_iter_laws() ==> if old(self).inner().remaining().len() > 0 {
                &&& r == Some(old(self).inner().remaining()[0])
                &&& final(self).inner().remaining() == old(self).inner().remaining().drop_first()
            } else {
                &&& r is None
                &&& final(self).inner().remaining() == old(self).inner().remaining()
            },
            old(self).inner().obeys_prophetic_iter_laws() ==> final(self).yielded()
                + final(self).inner().remaining() == old(self).yielded() + old(self).inner().remaining(),
    {
        let now = elapsed_nanos(&self.start_instant);
        self.next_at(now, out)
    }

    /// The inner sequence's current estimate of its length, unchanged.
    pub fn size_hint(&self) -> (usize, Option<usize>) {
        size_hint_of(&self.iter)
    }
}

/// Every pull raises the count by one, so the count only grows.
pub proof fn lemma_count_grows<I: Iterator>(
    before: Progress<I>,
    after: Progress<I>,
    now: u64,
    r: Option<I::Item>,
    out_before: Seq<u8>,
    out_after: Seq<u8>,
)
    requires
        before.pulled(&after, now, r, out_before, out_after),
    ensures
        after.count() == before.count() + 1,
{
}

/// The pull that first finds the end draws its last frame with the number of
/// items produced, not the number of pulls, and then ends the line.
pub proof fn lemma_last_frame_shows_items<I: Iterator>(
    before: Progress<I>,
    after: Progress<I>,
    now: u64,
    out_before: Seq<u8>,
    out_after: Seq<u8>,
)
    requires
        before.tallied(),
        !before.exhausted(),
        before.pulled(&after, now, None, out_before, out_after),
    ensures
        after.count() == after.yielded().len() + 1,
        out_after == out_before + (if frame_due(before.last_render(), now) {
            meter_text(BAR_LENGTH as nat, before.count() as nat, before.total() as nat, now as nat)
        } else {
            Seq::empty()
        }) + meter_text(
            BAR_LENGTH as nat,
            after.yielded().len(),
            after.total() as nat,
            now as nat,
        ) + seq![10u8],
{
    assert(out_after =~= out_before + (if frame_due(before.last_render(), now) {
        meter_text(BAR_LENGTH as nat, before.count() as nat, before.total() as nat, now as nat)
    } else {
        Seq::empty()
    }) + meter_text(BAR_LENGTH as nat, after.yielded().len(), after.total() as nat, now as nat)
        + seq![10u8]);
}

/// The time of the last periodic frame never goes back, and two periodic
/// frames of consecutive pulls lie more than the minimum interval apart:
/// pulls that come faster draw no periodic frame.
pub proof fn lemma_frames_spaced<I: Iterator>(
    first: Progress<I>,
    second: Progress<I>,
    third: Progress<I>,
    t1: u64,
    t2: u64,
    r1: Option<I::Item>,
    r2: Option<I::Item>,
    o1: Seq<u8>,
    o2: Seq<u8>,
    o3: Seq<u8>,
)
    requires
        first.pulled(&second, t1, r1, o1, o2),
        second.pulled(&third, t2, r2, o2, o3),
    ensures
        first.last_render() <= second.last_render() <= third.last_render(),
        frame_due(first.last_render(), t1) && frame_due(second.last_render(), t2) ==> t2 > t1
            + MIN_INTERVAL_NANOS,
        frame_due(first.last_render(), t1) && t2 <= t1 + MIN_INTERVAL_NANOS ==> !frame_due(
            second.last_render(),
            t2,
        ),
{
}

/// Consecutive pulls: pull `i`, at `times[i]`, takes `states[i]` to
/// `states[i + 1]` and returns `results[i]`, and the output grows from
/// `outs[i]` to `outs[i + 1]`.
pub open spec fn is_run<I: Iterator>(
    states: Seq<Progress<I>>,
    times: Seq<u64>,
    results: Seq<Option<I::Item>>,
    outs: Seq<Seq<u8>>,
) -> bool {
    &&& states.len() == times.len() + 1
    &&& results.len() == times.len()
    &&& outs.len() == states.len()
    &&& forall|i: int|
        0 <= i < times.len() ==> #[trigger] states[i].pulled(
            &states[i + 1],
            times[i],
            results[i],
            outs[i],
            outs[i + 1],
        )
}

/// How many of the first `k` pulls of a run drew a periodic frame.
pub open spec fn periodic_frames<I: Iterator>(states: Seq<Progress<I>>, times: Seq<u64>, k: int) -> nat
    decreases k,
{
    if k <= 0 {
        0
    } else {
        periodic_frames(states, times, k - 1) + if frame_due(states[k - 1].last_render(), times[k - 1]) {
            1nat
        } else {
            0nat
        }
    }
}

proof fn lemma_run_prefix<I: Iterator>(
    states: Seq<Progress<I>>,
    times: Seq<u64>,
    results: Seq<Option<I::Item>>,
    outs: Seq<Seq<u8>>,
    k: int,
)
    requires
        is_run(states, times, results, outs),
        forall|i: int, j: int| 0 <= i <= j < times.len() ==> times[i] <= times[j],
        0 <= k <= times.len(),
    ensures
        periodic_frames(states, times, k) * (MIN_INTERVAL_NANOS + 1) <= states[k].last_render()
            - states[0].last_render(),
        k > 0 ==> states[k].last_render() <= states[0].last_render() || states[k].last_render()
            <= times[k - 1],
    decreases k,
{
    if k > 0 {
        lemma_run_prefix(states, times, results, outs, k - 1);
        let j = k - 1;
        assert(states[j].pulled(&states[j + 1], times[j], results[j], outs[j], outs[j + 1]));
        if k > 1 {
            assert(times[k - 2] <= times[k - 1]);
        }
    }
}

/// Over consecutive pulls whose clock readings never go back, each periodic
/// frame comes more than the minimum interval after the one before it (or
/// after the wrapper was made), so `n` periodic frames span more than `n`
/// intervals of time, and the last one was drawn no later than the last pull.
pub proof fn lemma_frames_per_interval<I: Iterator>(
    states: Seq<Progress<I>>,
    times: Seq<u64>,
    results: Seq<Option<I::Item>>,
    outs: Seq<Seq<u8>>,
)
    requires
        is_run(states, times, results, outs),
        forall|i: int, j: int| 0 <= i <= j < times.len() ==> times[i] <= times[j],
    ensures
        periodic_frames(states, times, times.len() as int) * (MIN_INTERVAL_NANOS + 1)
            <= states.last().last_render() - states[0].last_render(),
        times.len() > 0 ==> states.last().last_render() <= states[0].last_render()
            || states.last().last_render() <= times.last(),
{
    lemma_run_prefix(states, times, results, outs, times.len() as int);
}

/// The total is taken once, when the wrapper is made: no pull changes it,
/// nor the moment from which times are measured.
pub proof fn lemma_total_kept<I: Iterator>(
    before: Progress<I>,
    after: Progress<I>,
    now: u64,
    r: Option<I::Item>,
    out_before: Seq<u8>,
    out_after: Seq<u8>,
)
    requires
        before.pulled(&after, now, r, out_before, out_after),
    ensures
        after.total() == before.total(),
        after.start() == before.start(),
{
}

/// Wraps `input` with `hint` taken for its estimate of its length: the
/// total is the estimate's lower bound, whatever its upper bound says.
/// Nothing is shown before the first pull.
pub fn progress_from_hint<I: Iterator>(input: I, hint: (usize, Option<usize>)) -> (r: Progress<I>)
    ensures
        r.fresh(input),
        r.total() == hint.0,
{
    Progress {
        iter: input,
        tally: Tally { count: 0, yielded: Ghost(Seq::empty()), exhausted: Ghost(false) },
        total: hint.0,
        start_instant: std::time::Instant::now(),
        last_render: 0,
    }
}

/// Wraps `input` so that progress is shown while it is consumed. The total is
/// the lower bound of the estimate that `input` gives of its length now,
/// passed to `progress_from_hint`, and kept from then on.
pub fn progress<I: Iterator>(input: I) -> (r: Progress<I>)
    ensures
        r.fresh(input),
{
    let hint = size_hint_of(&input);
    progress_from_hint(input, hint)
}

} // verus!
