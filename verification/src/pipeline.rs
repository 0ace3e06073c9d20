//! Stage transitions and progress reports sent to the UI.
//!
//! A user who sees nothing move for minutes while 3 GB downloads closes the
//! window; the reports say which stage runs and how far it is.
use crate::model::copy_opt_string;
use crate::progress::{ema, eta_secs, eta_spec, instant_rate, percent, percent_spec, RateEstimator, Stage};
use vstd::prelude::*;

verus! {

/// One progress report for the UI.
#[derive(Debug, Clone, PartialEq)]
pub struct ProgressEvent {
    pub stage: Stage,
    /// Percentage of this stage; None when the total is unknown.
    pub percent: Option<u8>,
    pub done_bytes: u64,
    pub total_bytes: Option<u64>,
    pub bytes_per_sec: Option<u64>,
    pub eta_secs: Option<u64>,
    /// Stages already finished, for the check marks.
    pub completed: Vec<Stage>,
    /// Extra detail of this stage (the file being fetched, ...).
    pub detail: Option<String>,
}

pub open spec fn planned_stages_spec(verify: bool) -> Seq<Stage> {
    seq![Stage::Resolving, Stage::Downloading, Stage::Extracting, Stage::Preparing, Stage::Writing]
        + if verify {
        seq![Stage::Verifying]
    } else {
        Seq::empty()
    } + seq![Stage::Finishing]
}

/// The stages the whole job goes through, in order; verification is optional.
pub fn planned_stages(verify: bool) -> (r: Vec<Stage>)
    ensures
        r@ == planned_stages_spec(verify),
{
    let mut v: Vec<Stage> = Vec::new();
    v.push(Stage::Resolving);
    v.push(Stage::Downloading);
    v.push(Stage::Extracting);
    v.push(Stage::Preparing);
    v.push(Stage::Writing);
    if verify {
        v.push(Stage::Verifying);
    }
    v.push(Stage::Finishing);
    proof {
        assert(v@ =~= planned_stages_spec(verify));
    }
    v
}

/// Cancellation signal, polled during long work.
pub trait Cancel {
    /// Whether the signal is known never to be set; by default it is not.
    closed spec fn never_cancels(&self) -> bool {
        false
    }

    fn is_canceled(&self) -> (r: bool)
        ensures
            self.never_cancels() ==> !r,
    ;
}

/// Never cancels.
pub struct NeverCancel;

impl Cancel for NeverCancel {
    open spec fn never_cancels(&self) -> bool {
        true
    }

    fn is_canceled(&self) -> (r: bool)
        ensures
            !r,
    {
        false
    }
}

/// The list of finished stages only grows at its end: what was listed stays
/// listed, in order, and no stage is ever listed twice.
pub proof fn law_finished_stages_grow_without_repeats(
    completed: Seq<Stage>,
    current: Stage,
    next: Stage,
)
    requires
        completed.no_duplicates(),
    ensures
        completed_after(completed, current, next).no_duplicates(),
        completed_after(completed, current, next).len() <= completed.len() + 1,
        completed_after(completed, current, next).take(completed.len() as int) == completed,
        current != next ==> completed_after(completed, current, next).contains(current),
{
    let c = completed_after(completed, current, next);
    assert(c.take(completed.len() as int) =~= completed);
    if current != next && !completed.contains(current) {
        assert(c[c.len() - 1] == current);
        assert forall|i: int, j: int| 0 <= i < c.len() && 0 <= j < c.len() && i != j implies c[i] != c[j] by {
            if i < completed.len() && j < completed.len() {
            } else if i < completed.len() {
                assert(completed[i] == c[i]);
            } else {
                assert(completed[j] == c[j]);
            }
        }
    }
}

/// Hands one report to the caller's callback.
///
/// The callback is the caller's own closure: nothing is known of what it
/// does. What is stated is only that it was called, in the state it had, with
/// this report, and returned.
#[verifier::external_body]
fn deliver<F: FnMut(ProgressEvent)>(emit: &mut F, ev: ProgressEvent)
    ensures
        call_ensures(*old(emit), (ev,), ()),
{
    emit(ev);
}

/// `a + b`, capped at `u64::MAX`.
pub open spec fn sat_add(a: u64, b: u64) -> u64 {
    if a + b > u64::MAX {
        u64::MAX
    } else {
        (a + b) as u64
    }
}

/// How long a rate window lasts before the rate is recomputed: 0.5 s.
///
/// A download callback fires every 256 KB; back-to-back reads from a socket
/// buffer are microseconds apart, and a rate taken over such a gap is absurd.
pub const RATE_WINDOW_MICROS: u64 = 500_000;

/// Does this report carry exactly these values?
pub open spec fn event_is(
    ev: ProgressEvent,
    stage: Stage,
    done: u64,
    total: Option<u64>,
    rate: Option<u64>,
    completed: Seq<Stage>,
    detail: Option<String>,
) -> bool {
    &&& ev.stage == stage
    &&& ev.percent == percent_spec(done, total)
    &&& ev.done_bytes == done
    &&& ev.total_bytes == total
    &&& ev.bytes_per_sec == rate
    &&& ev.eta_secs == eta_spec(done, total, rate)
    &&& ev.completed@ == completed
    &&& ev.detail == detail
}

/// The stage list after moving on from `current` to `next`.
pub open spec fn completed_after(completed: Seq<Stage>, current: Stage, next: Stage) -> Seq<
    Stage,
> {
    if current != next && !completed.contains(current) {
        completed.push(current)
    } else {
        completed
    }
}

/// Builds and sends progress reports; keeps the list of finished stages so
/// that no caller has to remember to update it.
pub struct ProgressReporter<F: FnMut(ProgressEvent)> {
    emit: F,
    completed: Vec<Stage>,
    current: Stage,
    rate: RateEstimator,
    detail: Option<String>,
    /// Last percentage sent; the same value is not sent twice.
    last_percent: Option<u8>,
    window_bytes: u64,
    window_micros: u64,
    /// Every report sent so far.
    sent: Ghost<Seq<ProgressEvent>>,
}

fn copy_stages(v: &Vec<Stage>) -> (r: Vec<Stage>)
    ensures
        r@ == v@,
{
    let mut r: Vec<Stage> = Vec::new();
    let mut i: usize = 0;
    while i < v.len()
        invariant
            i <= v@.len(),
            r@ == v@.take(i as int),
        decreases v@.len() - i,
    {
        r.push(v[i]);
        i += 1;
        proof {
            assert(r@ =~= v@.take(i as int));
        }
    }
    proof {
        assert(r@ =~= v@);
    }
    r
}

fn stages_contain(v: &Vec<Stage>, s: Stage) -> (r: bool)
    ensures
        r == v@.contains(s),
{
    let mut i: usize = 0;
    while i < v.len()
        invariant
            i <= v@.len(),
            forall|k: int| 0 <= k < i ==> v@[k] != s,
        decreases v@.len() - i,
    {
        if v[i] == s {
            proof {
                assert(v@[i as int] == s);
            }
            return true;
        }
        i += 1;
    }
    false
}

impl<F: FnMut(ProgressEvent)> ProgressReporter<F> {
    pub closed spec fn completed_spec(&self) -> Seq<Stage> {
        self.completed@
    }

    pub closed spec fn current_spec(&self) -> Stage {
        self.current
    }

    pub closed spec fn detail_spec(&self) -> Option<String> {
        self.detail
    }

    pub closed spec fn last_percent_spec(&self) -> Option<u8> {
        self.last_percent
    }

    pub closed spec fn rate_spec(&self) -> Option<u64> {
        self.rate.current_spec()
    }

    /// Bytes and microseconds gathered towards the next rate sample.
    pub closed spec fn window_spec(&self) -> (u64, u64) {
        (self.window_bytes, self.window_micros)
    }

    /// Every report sent so far, oldest first.
    pub closed spec fn sent(&self) -> Seq<ProgressEvent> {
        self.sent@
    }

    /// The caller's callback, in the state it is in now.
    pub closed spec fn callback(&self) -> F {
        self.emit
    }

    pub fn new(emit: F) -> (r: Self)
        ensures
            r.completed_spec() == Seq::<Stage>::empty(),
            r.current_spec() == Stage::Resolving,
            r.detail_spec() is None,
            r.last_percent_spec() is None,
            r.rate_spec() is None,
            r.window_spec() == (0u64, 0u64),
            r.sent() == Seq::<ProgressEvent>::empty(),
    {
        ProgressReporter {
            emit,
            completed: Vec::new(),
            current: Stage::Resolving,
            rate: RateEstimator::new(),
            detail: None,
            last_percent: None,
            window_bytes: 0,
            window_micros: 0,
            sent: Ghost(Seq::empty()),
        }
    }

    /// Moves to a new stage; the previous one is recorded as finished.
    pub fn begin(&mut self, stage: Stage, detail: Option<String>)
        ensures
            final(self).completed_spec() == completed_after(
                old(self).completed_spec(),
                old(self).current_spec(),
                stage,
            ),
            final(self).current_spec() == stage,
            final(self).detail_spec() == detail,
            final(self).last_percent_spec() is None,
            final(self).rate_spec() is None,
            final(self).window_spec() == (0u64, 0u64),
            final(self).sent().len() == old(self).sent().len() + 1,
            final(self).sent().drop_last() == old(self).sent(),
            event_is(
                final(self).sent().last(),
                stage,
                0,
                None,
                None,
                final(self).completed_spec(),
                detail,
            ),
            call_ensures(old(self).callback(), (final(self).sent().last(),), ()),
    {
        if self.current != stage && !stages_contain(&self.completed, self.current) {
            self.completed.push(self.current);
        }
        self.current = stage;
        self.detail = detail;
        self.rate = RateEstimator::new();
        self.last_percent = None;
        self.window_bytes = 0;
        self.window_micros = 0;
        self.emit_now(0, None);
    }

    /// Records progress. A report goes out only when the percentage changed:
    /// 3 GB read in small pieces would otherwise flood the UI.
    ///
    /// The rate is recomputed once at least half a second of samples is gathered.
    pub fn update(&mut self, done: u64, total: Option<u64>, elapsed_micros: u64, chunk: u64)
        ensures
            final(self).completed_spec() == old(self).completed_spec(),
            final(self).current_spec() == old(self).current_spec(),
            final(self).detail_spec() == old(self).detail_spec(),
            final(self).last_percent_spec() == percent_spec(done, total),
            ({
                let wb = sat_add(old(self).window_spec().0, chunk);
                let wm = sat_add(old(self).window_spec().1, elapsed_micros);
                if wm >= RATE_WINDOW_MICROS {
                    &&& final(self).rate_spec() == Some(
                        ema(old(self).rate_spec(), instant_rate(wb, wm)),
                    )
                    &&& final(self).window_spec() == (0u64, 0u64)
                } else {
                    &&& final(self).rate_spec() == old(self).rate_spec()
                    &&& final(self).window_spec() == (wb, wm)
                }
            }),
            percent_spec(done, total) == old(self).last_percent_spec() ==> final(self).sent()
                == old(self).sent(),
            percent_spec(done, total) != old(self).last_percent_spec() ==> {
                &&& final(self).sent().drop_last() == old(self).sent()
                &&& final(self).sent().len() == old(self).sent().len() + 1
                &&& event_is(
                    final(self).sent().last(),
                    old(self).current_spec(),
                    done,
                    total,
                    final(self).rate_spec(),
                    old(self).completed_spec(),
                    old(self).detail_spec(),
                )
                &&& call_ensures(old(self).callback(), (final(self).sent().last(),), ())
            },
    {
        self.window_bytes = self.window_bytes.saturating_add(chunk);
        self.window_micros = self.window_micros.saturating_add(elapsed_micros);
        if self.window_micros >= RATE_WINDOW_MICROS {
            self.rate.sample(self.window_bytes, self.window_micros);
            self.window_bytes = 0;
            self.window_micros = 0;
        }
        let p = percent(done, total);
        if p != self.last_percent {
            self.last_percent = p;
            self.emit_now(done, total);
        }
    }

    /// Announces that the last stage is done as well.
    pub fn finish(&mut self)
        ensures
            final(self).completed_spec() == if old(self).completed_spec().contains(
                old(self).current_spec(),
            ) {
                old(self).completed_spec()
            } else {
                old(self).completed_spec().push(old(self).current_spec())
            },
            final(self).current_spec() == old(self).current_spec(),
            final(self).detail_spec() == old(self).detail_spec(),
            final(self).last_percent_spec() == old(self).last_percent_spec(),
            final(self).rate_spec() == old(self).rate_spec(),
            final(self).window_spec() == old(self).window_spec(),
            final(self).sent().drop_last() == old(self).sent(),
            final(self).sent().len() == old(self).sent().len() + 1,
            event_is(
                final(self).sent().last(),
                old(self).current_spec(),
                0,
                None,
                old(self).rate_spec(),
                final(self).completed_spec(),
                old(self).detail_spec(),
            ),
            call_ensures(old(self).callback(), (final(self).sent().last(),), ()),
    {
        if !stages_contain(&self.completed, self.current) {
            self.completed.push(self.current);
        }
        self.emit_now(0, None);
    }

    fn emit_now(&mut self, done: u64, total: Option<u64>)
        ensures
            final(self).completed_spec() == old(self).completed_spec(),
            final(self).current_spec() == old(self).current_spec(),
            final(self).detail_spec() == old(self).detail_spec(),
            final(self).last_percent_spec() == old(self).last_percent_spec(),
            final(self).rate_spec() == old(self).rate_spec(),
            final(self).window_spec() == old(self).window_spec(),
            final(self).sent().drop_last() == old(self).sent(),
            final(self).sent().len() == old(self).sent().len() + 1,
            event_is(
                final(self).sent().last(),
                old(self).current_spec(),
                done,
                total,
                old(self).rate_spec(),
                old(self).completed_spec(),
                old(self).detail_spec(),
            ),
            call_ensures(old(self).callback(), (final(self).sent().last(),), ()),
    {
        let rate = self.rate.current();
        let ev = ProgressEvent {
            stage: self.current,
            percent: percent(done, total),
            done_bytes: done,
            total_bytes: total,
            bytes_per_sec: rate,
            eta_secs: eta_secs(done, total, rate),
            completed: copy_stages(&self.completed),
            detail: copy_opt_string(&self.detail),
        };
        let ghost sent_now = self.sent@.push(ev);
        deliver(&mut self.emit, ev);
        self.sent = Ghost(sent_now);
        proof {
            assert(self.sent@.drop_last() =~= old(self).sent@);
        }
    }
}

/// Where a stage comes in a job: the order in which a burn or a clone goes
/// through them.
pub open spec fn stage_rank(s: Stage) -> int {
    match s {
        Stage::Resolving => 0,
        Stage::Downloading => 1,
        Stage::Extracting => 2,
        Stage::Analyzing => 3,
        Stage::Preparing => 4,
        Stage::Writing => 5,
        Stage::Verifying => 6,
        Stage::Finishing => 7,
    }
}

/// The plan of a burn holds every stage the burn goes through, and nothing
/// else, in the order it goes through them: all but the clone's analysis,
/// and the read-back only when it is asked for.
pub proof fn law_planned_stages(verify: bool, s: Stage)
    ensures
        planned_stages_spec(verify).contains(s) <==> (s != Stage::Analyzing && (s
            == Stage::Verifying ==> verify)),
        forall|i: int, j: int|
            0 <= i < j < planned_stages_spec(verify).len() ==> stage_rank(
                #[trigger] planned_stages_spec(verify)[i],
            ) < stage_rank(#[trigger] planned_stages_spec(verify)[j]),
{
    let p = planned_stages_spec(verify);
    if verify {
        assert(p =~= seq![
            Stage::Resolving,
            Stage::Downloading,
            Stage::Extracting,
            Stage::Preparing,
            Stage::Writing,
            Stage::Verifying,
            Stage::Finishing,
        ]);
    } else {
        assert(p =~= seq![
            Stage::Resolving,
            Stage::Downloading,
            Stage::Extracting,
            Stage::Preparing,
            Stage::Writing,
            Stage::Finishing,
        ]);
    }
    if s != Stage::Analyzing && (s == Stage::Verifying ==> verify) {
        let k: int = match s {
            Stage::Resolving => 0,
            Stage::Downloading => 1,
            Stage::Extracting => 2,
            Stage::Analyzing => 0,
            Stage::Preparing => 3,
            Stage::Writing => 4,
            Stage::Verifying => 5,
            Stage::Finishing => if verify {
                6
            } else {
                5
            },
        };
        assert(p[k] == s);
    }
}

/// What is left of `total` once `done` bytes are done.
pub open spec fn left_of(done: u64, total: u64) -> int {
    if total >= done {
        total - done
    } else {
        0
    }
}

/// The time left is what remains of the total, in whole seconds at the
/// rate: `e` seconds at `r` bytes a second cover at most what is left, and one
/// second more would cover it. Unknown without a total or a rate, or at a
/// rate of 0; 0 once the total is reached.
pub proof fn law_eta_covers_what_is_left(done: u64, t: u64, r: u64)
    ensures
        eta_spec(done, None, Some(r)) is None,
        eta_spec(done, Some(t), None) is None,
        eta_spec(done, Some(t), Some(0)) is None,
        r > 0 ==> (eta_spec(done, Some(t), Some(r)) matches Some(e) && e * r <= left_of(done, t)
            && left_of(done, t) < (e + 1) * r),
{
    if r > 0 {
        let left = left_of(done, t);
        let e = left / (r as int);
        vstd::arithmetic::div_mod::lemma_fundamental_div_mod(left, r as int);
        vstd::arithmetic::div_mod::lemma_mod_pos_bound(left, r as int);
        assert(e * r <= left && left < (e + 1) * r) by (nonlinear_arith)
            requires
                left == r * e + left % (r as int),
                0 <= left % (r as int) < r,
        ;
    }
}

} // verus!
