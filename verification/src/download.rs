//! The course of a download that resumes where it broke off.
//!
//! The caller moves the bytes; this machine decides what comes next. It is
//! fed one event at a time (an answer to "must it stop?", a failed or
//! answered request, a piece of the body, a broken or ended body) and
//! answers with the next action. The rules it applies are those of `fetch`;
//! what is decided here is their order: the stop question before every
//! attempt and after every piece, the attempt budget, and which message a
//! download that gives up carries.
use crate::fetch::{
    append_piece, ended, finish_body, give_up, judge_end, judge_reply, judged, range_from,
    start_body, BodyStep, Budget, Ending, Reply, MAX_ATTEMPTS, MAX_FRUITLESS,
};
use crate::text::dec;
use vstd::prelude::*;

verus! {

/// Where a download stands.
#[derive(Debug, Clone, Copy, PartialEq, Eq, Structural)]
pub enum Phase {
    /// An attempt may start once the caller said it must not stop.
    BeforeAttempt,
    /// A request is out; its answer or its failure is awaited.
    Asked,
    /// The body is being read.
    Reading,
    /// A piece was received and reported; the stop question is out.
    AfterPiece,
    /// The download is over, complete or failed.
    Over,
}

/// What the caller saw.
pub enum Event {
    /// The answer to the stop question: whether the download must stop.
    Stop(bool),
    /// The request could not be made or answered.
    SendFailed(String),
    /// The server answered: the status, the `Content-Range` header as text
    /// when it is there and readable, and the `Content-Length`.
    Answer { status: u16, content_range: Option<String>, content_length: Option<u64> },
    /// These bytes of the body arrived.
    Piece(Vec<u8>),
    /// Reading the body failed.
    ReadFailed(String),
    /// The body ended.
    BodyEnd,
}

/// What the caller does next.
pub enum Action {
    /// Ask whether the download must stop, and report it as `Event::Stop`.
    AskStop,
    /// Request the file, after the pause between attempts when `wait`, with
    /// this `Range` header when one is given.
    Send { wait: bool, range: Option<String> },
    /// Read the next piece of the body.
    Read,
    /// Report `have` bytes received of `total`, then ask whether to stop.
    Report { have: u64, total: Option<u64> },
    /// The download is complete: these are the file's bytes.
    Done(Vec<u8>),
    /// The download failed with this message.
    Fail(String),
}

/// The message of a download the user stopped.
pub open spec fn canceled_text() -> Seq<char> {
    "취소됨"@
}

/// The message of a download that spent its attempts, the last failure
/// being `last`.
pub open spec fn given_up_text(last: Seq<char>) -> Seq<char> {
    "내려받기를 여러 번 시도했지만 완료하지 못했습니다: "@ + last
}

/// The `Range` header asking for the file from byte `have` on.
pub open spec fn range_text(have: nat) -> Seq<char> {
    "bytes="@ + dec(have) + "-"@
}

/// The state of a download: the bytes received, the attempt budget, the
/// last failure, the whole size as the current answer gave it, and the phase.
pub struct Download {
    pub received: Vec<u8>,
    pub budget: Budget,
    pub last_err: String,
    pub total: Option<u64>,
    pub phase: Phase,
}

/// Whether another attempt may start with budget `b`.
pub open spec fn may_try(b: Budget) -> bool {
    b.attempt < MAX_ATTEMPTS && b.fruitless < MAX_FRUITLESS
}

/// An attempt that began with budget `before` closed with `have` bytes
/// received and the failure `err`, leaving `t` and the action `a`: the budget
/// counts it, and the download goes on to the next attempt or gives up.
pub open spec fn closes_attempt(before: Budget, have: nat, err: Seq<char>, t: Download, a: Action) -> bool {
    &&& t.budget.attempt == before.attempt + 1
    &&& have > before.best ==> t.budget.best == have && t.budget.fruitless == 0
    &&& have <= before.best ==> t.budget.best == before.best && t.budget.fruitless
        == before.fruitless + 1
    &&& t.last_err@ == err
    &&& if may_try(t.budget) {
        t.phase == Phase::BeforeAttempt && a is AskStop
    } else {
        t.phase == Phase::Over && (a matches Action::Fail(m) && m@ == given_up_text(err))
    }
}

/// `received` as it stands after an answer that says whether to restart.
pub open spec fn kept(received: Seq<u8>, restart: bool) -> Seq<u8> {
    if restart {
        Seq::empty()
    } else {
        received
    }
}

/// The text of a header that may be missing.
pub open spec fn text_of(h: Option<String>) -> Option<Seq<char>> {
    match h {
        Some(v) => Some(v@),
        None => None,
    }
}

/// One step: from `s`, the event `e` leads to `t` and the action `a`.
pub open spec fn stepped(s: Download, e: Event, t: Download, a: Action) -> bool {
    match e {
        Event::Stop(stop) => if stop {
            t.phase == Phase::Over && (a matches Action::Fail(m) && m@ == canceled_text())
        } else if s.phase == Phase::BeforeAttempt {
            &&& t.phase == Phase::Asked
            &&& t.received@ == s.received@
            &&& t.budget == s.budget
            &&& a matches Action::Send { wait, range }
            &&& wait == (s.budget.attempt > 0)
            &&& if s.received@.len() == 0 {
                range is None
            } else {
                range matches Some(h) && h@ == range_text(s.received@.len())
            }
        } else {
            &&& t.phase == Phase::Reading
            &&& a is Read
            &&& t.received@ == s.received@
            &&& t.budget == s.budget
            &&& t.total == s.total
        },
        Event::SendFailed(m) => t.received@ == s.received@ && closes_attempt(
            s.budget,
            s.received@.len(),
            m@,
            t,
            a,
        ),
        Event::Answer { status, content_range, content_length } => exists|reply: Reply|
            {
                &&& #[trigger] judged(
                    status,
                    text_of(content_range),
                    content_length,
                    s.received@.len() as u64,
                    reply,
                )
                &&& match reply {
                    Reply::Fail(m) => t.phase == Phase::Over && (a matches Action::Fail(x) && x@
                        == m@),
                    Reply::Retry { reason, restart } => {
                        &&& t.received@ == kept(s.received@, restart)
                        &&& closes_attempt(s.budget, t.received@.len(), reason@, t, a)
                    },
                    Reply::Take { restart, total } => {
                        &&& t.received@ == kept(s.received@, restart)
                        &&& t.phase == Phase::Reading
                        &&& a is Read
                        &&& t.total == total
                        &&& t.budget == s.budget
                    },
                }
            },
        Event::Piece(p) => {
            &&& t.received@ == s.received@ + p@
            &&& t.phase == Phase::AfterPiece
            &&& t.budget == s.budget
            &&& t.total == s.total
            &&& a == Action::Report { have: t.received@.len() as u64, total: s.total }
        },
        Event::ReadFailed(m) => t.received@ == s.received@ && closes_attempt(
            s.budget,
            s.received@.len(),
            m@,
            t,
            a,
        ),
        Event::BodyEnd => exists|ending: Ending|
            {
                &&& #[trigger] ended(s.received@.len() as u64, s.total, ending)
                &&& match ending {
                    Ending::Done => t.phase == Phase::Over && (a matches Action::Done(v) && v@
                        == s.received@),
                    Ending::Retry { reason, restart } => {
                        &&& t.received@ == kept(s.received@, restart)
                        &&& closes_attempt(s.budget, t.received@.len(), reason@, t, a)
                    },
                }
            },
    }
}

impl Download {
    /// The budget allows the attempt under way or about to start.
    pub open spec fn wf(self) -> bool {
        self.phase != Phase::Over ==> may_try(self.budget)
    }

    /// Whether `e` is an event that the phase waits for.
    pub open spec fn expects(self, e: Event) -> bool {
        match self.phase {
            Phase::BeforeAttempt | Phase::AfterPiece => e is Stop,
            Phase::Asked => e is SendFailed || e is Answer,
            Phase::Reading => e is Piece || e is ReadFailed || e is BodyEnd,
            Phase::Over => false,
        }
    }

    /// A new download, nothing received, and its first action: the stop
    /// question before the first attempt.
    pub fn start() -> (r: (Download, Action))
        ensures
            r.0.wf(),
            r.0.phase == Phase::BeforeAttempt,
            r.0.received@.len() == 0,
            r.0.budget == (Budget { attempt: 0, best: 0, fruitless: 0 }),
            r.0.total is None,
            r.1 is AskStop,
    {
        (
            Download {
                received: Vec::new(),
                budget: Budget::new(),
                last_err: String::new(),
                total: None,
                phase: Phase::BeforeAttempt,
            },
            Action::AskStop,
        )
    }

    /// Whether the phase waits for `e`.
    pub fn accepts(&self, e: &Event) -> (r: bool)
        ensures
            r == self.expects(*e),
    {
        match self.phase {
            Phase::BeforeAttempt | Phase::AfterPiece => matches!(e, Event::Stop(_)),
            Phase::Asked => matches!(e, Event::SendFailed(_) | Event::Answer { .. }),
            Phase::Reading => matches!(
                e,
                Event::Piece(_) | Event::ReadFailed(_) | Event::BodyEnd
            ),
            Phase::Over => false,
        }
    }

    /// Closes the attempt under way with the failure `err`.
    fn close_attempt(&mut self, err: String) -> (a: Action)
        requires
            may_try(old(self).budget),
        ensures
            final(self).received@ == old(self).received@,
            final(self).wf(),
            closes_attempt(old(self).budget, old(self).received@.len(), err@, *final(self), a),
    {
        let have = self.received.len() as u64;
        self.budget.record(have);
        self.last_err = err;
        if self.budget.may_try() {
            self.phase = Phase::BeforeAttempt;
            Action::AskStop
        } else {
            self.phase = Phase::Over;
            Action::Fail(give_up(self.last_err.as_str()))
        }
    }

    /// Takes the event `e` and gives the next action.
    pub fn step(&mut self, e: Event) -> (a: Action)
        requires
            old(self).wf(),
            old(self).expects(e),
        ensures
            final(self).wf(),
            stepped(*old(self), e, *final(self), a),
    {
        match e {
            Event::Stop(stop) => {
                if stop {
                    self.phase = Phase::Over;
                    return Action::Fail("취소됨".to_owned());
                }
                if self.phase == Phase::BeforeAttempt {
                    let range = if self.received.len() == 0 {
                        None
                    } else {
                        Some(range_from(self.received.len() as u64))
                    };
                    self.phase = Phase::Asked;
                    Action::Send { wait: self.budget.should_wait(), range }
                } else {
                    self.phase = Phase::Reading;
                    Action::Read
                }
            },
            Event::SendFailed(m) => self.close_attempt(m),
            Event::Answer { status, content_range, content_length } => {
                let have = self.received.len() as u64;
                let cr: Option<&str> = match &content_range {
                    Some(v) => Some(v.as_str()),
                    None => None,
                };
                let reply = judge_reply(status, cr, content_length, have);
                proof {
                    let view_cr = text_of(content_range);
                    let view_arg: Option<Seq<char>> = match cr {
                        Some(v) => Some(v@),
                        None => None,
                    };
                    assert(view_arg == view_cr);
                    assert(judged(status, view_cr, content_length, have, reply));
                }
                let step = start_body(&mut self.received, reply);
                match step {
                    BodyStep::Stop(m) => {
                        self.phase = Phase::Over;
                        Action::Fail(m)
                    },
                    BodyStep::Again(reason) => self.close_attempt(reason),
                    BodyStep::Read(total) => {
                        self.total = total;
                        self.phase = Phase::Reading;
                        Action::Read
                    },
                }
            },
            Event::Piece(p) => {
                let n = p.len();
                append_piece(&mut self.received, p.as_slice(), n);
                proof {
                    assert(p@.take(n as int) =~= p@);
                }
                self.phase = Phase::AfterPiece;
                Action::Report { have: self.received.len() as u64, total: self.total }
            },
            Event::ReadFailed(m) => self.close_attempt(m),
            Event::BodyEnd => {
                let ending = judge_end(self.received.len() as u64, self.total);
                match finish_body(&mut self.received, ending) {
                    None => {
                        self.phase = Phase::Over;
                        let mut out: Vec<u8> = Vec::new();
                        std::mem::swap(&mut out, &mut self.received);
                        Action::Done(out)
                    },
                    Some(reason) => self.close_attempt(reason),
                }
            },
        }
    }
}

} // verus!
