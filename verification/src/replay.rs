//! A transport for hosts that cannot wait.
//!
//! In a browser a transfer is a promise, and nothing can block on it. A driver call is
//! therefore run against the answers collected so far: it goes as far as they last and leaves
//! behind what it wants next. The host performs that one transfer, adds the answer, and runs
//! the call again.

use vstd::prelude::*;
use vstd::string::*;

use crate::conversation::{continues, Exchange, Outcome, Step};
use crate::transport::{fill_from, ControlRequest, Recorded, Transport, TransportError};

verus! {

/// How a transfer that the host performed ended.
#[derive(Debug, Clone)]
pub enum Answer {
    /// The data went out.
    Sent,
    /// These bytes arrived.
    Received(Vec<u8>),
    /// The transfer failed.
    Failed(TransportError),
}

/// The answers to the first transfers of a call, and what it wants after them.
pub struct Transcript {
    pub answers: Vec<Answer>,
    /// How many of the answers have been given out.
    pub used: usize,
    /// The first transfer that there was no answer to.
    pub wanted: Option<Recorded>,
    /// What the specification knows of every transfer.
    pub trace: Ghost<Seq<Exchange>>,
}

/// The failure that a call sees at the transfer that has no answer yet.
pub open spec fn waits(failure: TransportError) -> bool {
    failure matches TransportError::Io(text) && text@ == "transfer pending"@
}

fn waiting() -> (failure: TransportError)
    ensures
        waits(failure),
{
    TransportError::Io("transfer pending".to_owned())
}

/// The same failure again.
fn again(failure: &TransportError) -> (same: TransportError)
    ensures
        same == *failure,
{
    match failure {
        TransportError::Disconnected => TransportError::Disconnected,
        TransportError::Stalled => TransportError::Stalled,
        TransportError::Io(text) => TransportError::Io(text.clone()),
    }
}

impl Transcript {
    /// Every answer given out was there to give.
    pub open spec fn wf(&self) -> bool {
        self.used <= self.answers@.len()
    }

    pub fn new(answers: Vec<Answer>) -> (transcript: Self)
        ensures
            transcript.wf(),
            transcript.answers == answers,
            transcript.used == 0,
            transcript.wanted is None,
            transcript.history() == Seq::<Exchange>::empty(),
    {
        Self { answers, used: 0, wanted: None, trace: Ghost(Seq::empty()) }
    }

    /// What decides how the transcript answers.
    pub open spec fn state(&self) -> ReplayState {
        ReplayState {
            answers: self.answers@,
            used: self.used as int,
            wanted: match self.wanted {
                Some(transfer) => Some(transfer@),
                None => None,
            },
        }
    }

    /// Whether there is an answer to the next transfer.
    pub open spec fn has_answer(&self) -> bool {
        self.wanted is None && self.used < self.answers@.len()
    }

    /// Notes a transfer that there is no answer to, unless an earlier one is already noted.
    fn want(&mut self, transfer: Recorded)
        ensures
            final(self).wanted == (if old(self).wanted is None {
                Some(transfer)
            } else {
                old(self).wanted
            }),
            final(self).answers == old(self).answers,
            final(self).used == old(self).used,
            final(self).trace == old(self).trace,
    {
        if self.wanted.is_none() {
            self.wanted = Some(transfer);
        }
    }

    /// Takes the next answer to a read into `data`.
    fn take_read(&mut self, data: &mut [u8]) -> (r: Result<usize, TransportError>)
        requires
            old(self).has_answer(),
        ensures
            final(self).answers == old(self).answers,
            final(self).used == old(self).used + 1,
            final(self).wanted == old(self).wanted,
            final(self).trace == old(self).trace,
            final(data)@.len() == old(data)@.len(),
            read_as(old(self).answers@[old(self).used as int], old(data)@, final(data)@, r),
    {
        assert(self.used < self.answers.len());
        let r = match &self.answers[self.used] {
            Answer::Received(bytes) => Ok(fill_from(data, bytes.as_slice())),
            Answer::Failed(e) => Err(again(e)),
            Answer::Sent => Ok(0),
        };
        self.used = self.used + 1;
        r
    }
}

/// A read ended as its answer says: the buffer holds as much of the bytes as fits, or the
/// failure is passed on. An answer that is not one to a read leaves the buffer alone.
pub open spec fn read_as(
    answer: Answer,
    before: Seq<u8>,
    after: Seq<u8>,
    r: Result<usize, TransportError>,
) -> bool {
    match answer {
        Answer::Received(bytes) => {
            let n = if bytes@.len() <= before.len() {
                bytes@.len() as int
            } else {
                before.len() as int
            };
            r == Ok::<usize, TransportError>(n as usize) && after == bytes@.take(n) + before.skip(n)
        },
        Answer::Failed(e) => r == Err::<usize, TransportError>(e) && after == before,
        Answer::Sent => r == Ok::<usize, TransportError>(0) && after == before,
    }
}

/// What decides how a transcript answers.
pub struct ReplayState {
    pub answers: Seq<Answer>,
    pub used: int,
    pub wanted: Option<Step>,
}

impl ReplayState {
    /// Whether there is an answer to the next transfer.
    pub open spec fn has_answer(self) -> bool {
        self.wanted is None && self.used < self.answers.len()
    }

    /// Whether a transfer ends in this way: as its answer says, or pending without one.
    pub open spec fn ends_as(self, exchange: Exchange) -> bool {
        if !self.has_answer() {
            exchange.outcome matches Outcome::Failed(e) && waits(e)
        } else {
            match (exchange.step, self.answers[self.used]) {
                (_, Answer::Failed(e)) => exchange.outcome == Outcome::Failed(e),
                (Step::Out { .. }, _) => exchange.outcome is Sent,
                (Step::In { len, .. }, answer) => gives(answer, len, exchange.outcome),
                (Step::Bulk { len }, answer) => gives(answer, len, exchange.outcome),
            }
        }
    }

    /// After a transfer: an answer is used up, or what was asked for is wanted.
    pub open spec fn past(self, exchange: Exchange) -> ReplayState {
        if self.has_answer() {
            ReplayState { used: self.used + 1, ..self }
        } else if self.wanted is None {
            ReplayState { wanted: Some(exchange.step), ..self }
        } else {
            self
        }
    }

    /// After the transfers of a history from position `from` on.
    pub open spec fn past_all(self, history: Seq<Exchange>, from: int) -> ReplayState
        decreases history.len(),
    {
        if history.len() <= from || history.len() == 0 {
            self
        } else {
            self.past_all(history.drop_last(), from).past(history.last())
        }
    }

    /// Whether the transfers of a history from position `from` on end as the answers say.
    pub open spec fn answers_all(self, history: Seq<Exchange>, from: int) -> bool
        decreases history.len(),
    {
        if history.len() <= from || history.len() == 0 {
            true
        } else {
            &&& self.answers_all(history.drop_last(), from)
            &&& self.past_all(history.drop_last(), from).ends_as(history.last())
        }
    }
}

/// A read into `len` bytes ended as an answer other than a failure says.
pub open spec fn gives(answer: Answer, len: nat, outcome: Outcome) -> bool {
    let sent = match answer {
        Answer::Received(bytes) => bytes@,
        _ => seq![],
    };
    let n = if sent.len() <= len {
        sent.len() as int
    } else {
        len as int
    };
    outcome matches Outcome::Received { bytes, count } && bytes.len() == len && count == n
        && bytes.take(n) == sent.take(n)
}

proof fn replay_takes_one(state: ReplayState, before: Seq<Exchange>, exchange: Exchange)
    ensures
        state.past_all(before.push(exchange), before.len() as int) == state.past(exchange),
        state.answers_all(before.push(exchange), before.len() as int) == state.ends_as(exchange),
{
    reveal_with_fuel(ReplayState::past_all, 2);
    reveal_with_fuel(ReplayState::answers_all, 2);
    let after = before.push(exchange);
    assert(after.drop_last() =~= before);
    assert(after.last() == exchange);
}

proof fn replay_goes_on(
    state: ReplayState,
    middle: Seq<Exchange>,
    after: Seq<Exchange>,
    from: int,
)
    requires
        0 <= from <= middle.len(),
        continues(middle, after),
        state.answers_all(middle, from),
        state.past_all(middle, from).answers_all(after, middle.len() as int),
    ensures
        state.answers_all(after, from),
        state.past_all(after, from) == state.past_all(middle, from).past_all(
            after,
            middle.len() as int,
        ),
    decreases after.len(),
{
    if after.len() == middle.len() {
        assert(after =~= middle);
    } else {
        replay_goes_on(state, middle, after.drop_last(), from);
    }
}

impl Transport for Transcript {
    open spec fn history(&self) -> Seq<Exchange> {
        self.trace@
    }

    /// Answers run out, and what comes after them is pending.
    open spec fn steady(&self) -> bool {
        false
    }

    open spec fn reached_from(&self, earlier: &Self) -> bool {
        let from = earlier.history().len() as int;
        &&& continues(earlier.history(), self.history())
        &&& earlier.state().answers_all(self.history(), from)
        &&& self.state() == earlier.state().past_all(self.history(), from)
    }

    proof fn reached_from_itself(&self) {
    }

    proof fn reached_in_two(first: &Self, second: &Self, third: &Self) {
        replay_goes_on(
            first.state(),
            second.history(),
            third.history(),
            first.history().len() as int,
        );
    }

    proof fn steadiness_lasts(earlier: &Self, later: &Self) {
    }

    fn control_out(&mut self, request: ControlRequest, data: &[u8]) -> (r: Result<
        (),
        TransportError,
    >)
        ensures
            final(self).answers == old(self).answers,
            if old(self).has_answer() {
                &&& final(self).used == old(self).used + 1
                &&& final(self).wanted is None
                &&& r == (match old(self).answers@[old(self).used as int] {
                    Answer::Failed(e) => Err::<(), TransportError>(e),
                    _ => Ok(()),
                })
            } else {
                &&& final(self).used == old(self).used
                &&& r matches Err(e) && waits(e)
                &&& final(self).wanted matches Some(transfer) && (old(self).wanted is None
                    ==> transfer@ == (Step::Out {
                    value: request.value,
                    index: request.index,
                    data: data@,
                }))
                &&& old(self).wanted is Some ==> final(self).wanted == old(self).wanted
            },
    {
        let r = if self.wanted.is_none() && self.used < self.answers.len() {
            let r = match &self.answers[self.used] {
                Answer::Failed(e) => Err(again(e)),
                _ => Ok(()),
            };
            self.used = self.used + 1;
            r
        } else {
            let copy = vstd::slice::slice_to_vec(data);
            self.want(Recorded::Out { value: request.value, index: request.index, data: copy });
            Err(waiting())
        };
        proof {
            self.trace@ = self.trace@.push(
                Exchange {
                    direction: Some(request.direction),
                    step: Step::Out { value: request.value, index: request.index, data: data@ },
                    outcome: Outcome::of_write(r),
                },
            );
            replay_takes_one(old(self).state(), old(self).trace@, self.trace@.last());
        }
        r
    }

    fn control_in(&mut self, request: ControlRequest, data: &mut [u8]) -> (r: Result<
        usize,
        TransportError,
    >)
        ensures
            final(self).answers == old(self).answers,
            if old(self).has_answer() {
                &&& final(self).used == old(self).used + 1
                &&& final(self).wanted is None
                &&& read_as(old(self).answers@[old(self).used as int], old(data)@, final(data)@, r)
            } else {
                &&& final(self).used == old(self).used
                &&& final(data)@ == old(data)@
                &&& r matches Err(e) && waits(e)
                &&& final(self).wanted matches Some(transfer) && (old(self).wanted is None
                    ==> transfer@ == (Step::In {
                    value: request.value,
                    index: request.index,
                    len: old(data)@.len(),
                }))
                &&& old(self).wanted is Some ==> final(self).wanted == old(self).wanted
            },
    {
        let room: usize = data.len();
        let r = if self.wanted.is_none() && self.used < self.answers.len() {
            self.take_read(data)
        } else {
            self.want(
                Recorded::In { value: request.value, index: request.index, len: room },
            );
            Err(waiting())
        };
        proof {
            self.trace@ = self.trace@.push(
                Exchange {
                    direction: Some(request.direction),
                    step: Step::In {
                        value: request.value,
                        index: request.index,
                        len: old(data)@.len(),
                    },
                    outcome: Outcome::of_read(r, data@),
                },
            );
            if old(self).has_answer() && r is Ok {
                let n = r->Ok_0 as int;
                assert(old(data)@.len() == room);
                match old(self).answers@[old(self).used as int] {
                    Answer::Received(bytes) => {
                        assert(data@.take(n) =~= bytes@.take(n));
                    },
                    _ => {
                        assert(data@.take(n) =~= Seq::<u8>::empty().take(n));
                    },
                }
            }
            replay_takes_one(old(self).state(), old(self).trace@, self.trace@.last());
        }
        r
    }

    fn bulk_in(&mut self, data: &mut [u8]) -> (r: Result<usize, TransportError>)
        ensures
            final(self).answers == old(self).answers,
            if old(self).has_answer() {
                &&& final(self).used == old(self).used + 1
                &&& final(self).wanted is None
                &&& read_as(old(self).answers@[old(self).used as int], old(data)@, final(data)@, r)
            } else {
                &&& final(self).used == old(self).used
                &&& final(data)@ == old(data)@
                &&& r matches Err(e) && waits(e)
                &&& final(self).wanted matches Some(transfer) && (old(self).wanted is None
                    ==> transfer@ == (Step::Bulk { len: old(data)@.len() }))
                &&& old(self).wanted is Some ==> final(self).wanted == old(self).wanted
            },
    {
        let room: usize = data.len();
        let r = if self.wanted.is_none() && self.used < self.answers.len() {
            self.take_read(data)
        } else {
            self.want(Recorded::Bulk { len: room });
            Err(waiting())
        };
        proof {
            self.trace@ = self.trace@.push(
                Exchange {
                    direction: None,
                    step: Step::Bulk { len: old(data)@.len() },
                    outcome: Outcome::of_read(r, data@),
                },
            );
            if old(self).has_answer() && r is Ok {
                let n = r->Ok_0 as int;
                assert(old(data)@.len() == room);
                match old(self).answers@[old(self).used as int] {
                    Answer::Received(bytes) => {
                        assert(data@.take(n) =~= bytes@.take(n));
                    },
                    _ => {
                        assert(data@.take(n) =~= Seq::<u8>::empty().take(n));
                    },
                }
            }
            replay_takes_one(old(self).state(), old(self).trace@, self.trace@.last());
        }
        r
    }
}

} // verus!
