//! The USB operations the driver needs, and nothing else.
//!
//! The same register sequences run against a USB library from a terminal, against a browser
//! worker, and against a recording harness in the tests. What they share is this trait: a
//! transport keeps (as a specification) the history of every transfer it was asked for.

use std::collections::VecDeque;

use vstd::prelude::*;

use crate::conversation::{continues, undisturbed, Exchange, Outcome, Step};

verus! {

/// Which way data flows on a control transfer.
#[derive(Debug, Clone, Copy, PartialEq, Eq, Structural)]
pub enum Direction {
    In,
    Out,
}

/// A vendor control transfer.
///
/// The RTL2832U uses request zero for everything and encodes the actual target in `value`
/// and `index`. See [`crate::regs`] for the two different encodings involved.
#[derive(Debug, Clone, Copy, PartialEq, Eq, Structural)]
pub struct ControlRequest {
    pub direction: Direction,
    pub value: u16,
    pub index: u16,
}

impl ControlRequest {
    pub fn read(value: u16, index: u16) -> (request: Self)
        ensures
            request == (ControlRequest { direction: Direction::In, value, index }),
    {
        Self { direction: Direction::In, value, index }
    }

    pub fn write(value: u16, index: u16) -> (request: Self)
        ensures
            request == (ControlRequest { direction: Direction::Out, value, index }),
    {
        Self { direction: Direction::Out, value, index }
    }
}

/// Transport-level failures, kept deliberately coarse.
///
/// The driver cannot do anything useful with a distinction between, say, a stall and a
/// timeout. Implementations keep the specifics in the message of [`TransportError::Io`].
#[derive(Debug, Clone, PartialEq, Eq)]
pub enum TransportError {
    /// The device went away mid-conversation.
    Disconnected,
    /// The endpoint stalled, which for this device means it rejected the request.
    Stalled,
    /// Anything else, with whatever the underlying library said.
    Io(String),
}

impl TransportError {
    /// The text shown for a failure.
    pub open spec fn spec_message(self) -> Seq<char> {
        match self {
            TransportError::Disconnected => "device disconnected"@,
            TransportError::Stalled => "endpoint stalled"@,
            TransportError::Io(detail) => "transport error: "@ + detail@,
        }
    }

    /// The text shown for this failure.
    pub fn message(&self) -> (text: String)
        ensures
            text@ == self.spec_message(),
    {
        match self {
            TransportError::Disconnected => "device disconnected".to_owned(),
            TransportError::Stalled => "endpoint stalled".to_owned(),
            TransportError::Io(detail) => "transport error: ".to_owned().concat(detail.as_str()),
        }
    }
}

/// USB access, as the driver needs it.
///
/// Each operation adds exactly one exchange to the history: what was asked for, and how it
/// ended. Implementations are not required to be `Send`; a browser transport cannot be.
pub trait Transport: Sized {
    /// Every transfer so far, oldest first.
    spec fn history(&self) -> Seq<Exchange>;

    /// No transfer will fail from here on.
    spec fn steady(&self) -> bool;

    /// This transport is what `earlier` becomes by the transfers that its history has gained.
    spec fn reached_from(&self, earlier: &Self) -> bool;

    /// Without a transfer a transport is what it was.
    proof fn reached_from_itself(&self)
        ensures
            self.reached_from(self),
    ;

    /// What is reached in two stretches is reached in one.
    proof fn reached_in_two(first: &Self, second: &Self, third: &Self)
        requires
            second.reached_from(first),
            third.reached_from(second),
        ensures
            third.reached_from(first),
    ;

    /// A steady transport fails no transfer and stays steady.
    proof fn steadiness_lasts(earlier: &Self, later: &Self)
        requires
            later.reached_from(earlier),
        ensures
            earlier.steady() ==> later.steady() && undisturbed(
                earlier.history(),
                later.history(),
            ),
    ;

    /// Sends a control transfer carrying `data`.
    fn control_out(&mut self, request: ControlRequest, data: &[u8]) -> (r: Result<
        (),
        TransportError,
    >)
        ensures
            final(self).reached_from(old(self)),
            final(self).history() == old(self).history().push(
                Exchange {
                    direction: Some(request.direction),
                    step: Step::Out { value: request.value, index: request.index, data: data@ },
                    outcome: Outcome::of_write(r),
                },
            ),
    ;

    /// Reads a control transfer into `data`, returning how many bytes arrived.
    fn control_in(&mut self, request: ControlRequest, data: &mut [u8]) -> (r: Result<
        usize,
        TransportError,
    >)
        ensures
            final(self).reached_from(old(self)),
            final(data)@.len() == old(data)@.len(),
            final(self).history() == old(self).history().push(
                Exchange {
                    direction: Some(request.direction),
                    step: Step::In {
                        value: request.value,
                        index: request.index,
                        len: old(data)@.len(),
                    },
                    outcome: Outcome::of_read(r, final(data)@),
                },
            ),
    ;

    /// Reads sample data from the bulk endpoint, returning how many bytes arrived.
    fn bulk_in(&mut self, data: &mut [u8]) -> (r: Result<usize, TransportError>)
        ensures
            final(self).reached_from(old(self)),
            final(data)@.len() == old(data)@.len(),
            final(self).history() == old(self).history().push(
                Exchange {
                    direction: None,
                    step: Step::Bulk { len: old(data)@.len() },
                    outcome: Outcome::of_read(r, final(data)@),
                },
            ),
    ;
}

/// A transport that has made no transfer is what it was.
pub broadcast proof fn reached_at_rest<T: Transport>(link: T)
    ensures
        #[trigger] link.reached_from(&link),
{
    link.reached_from_itself();
}

/// What is reached in two stretches is reached in one.
pub broadcast proof fn reached_in_turn<T: Transport>(first: T, second: T, third: T)
    requires
        #[trigger] second.reached_from(&first),
        #[trigger] third.reached_from(&second),
    ensures
        third.reached_from(&first),
{
    T::reached_in_two(&first, &second, &third);
}

/// A steady transport fails no transfer and stays steady.
pub broadcast proof fn steady_throughout<T: Transport>(earlier: T, later: T)
    requires
        #[trigger] later.reached_from(&earlier),
        earlier.steady(),
    ensures
        later.steady(),
        undisturbed(earlier.history(), later.history()),
{
    T::steadiness_lasts(&earlier, &later);
}

pub broadcast group group_reached {
    reached_at_rest,
    reached_in_turn,
    steady_throughout,
}

/// A recorded transfer, for tests and for logging a real session.
#[derive(Debug, Clone, PartialEq, Eq)]
pub enum Recorded {
    Out { value: u16, index: u16, data: Vec<u8> },
    In { value: u16, index: u16, len: usize },
    Bulk { len: usize },
}

impl View for Recorded {
    type V = Step;

    open spec fn view(&self) -> Step {
        match *self {
            Recorded::Out { value, index, data } => Step::Out { value, index, data: data@ },
            Recorded::In { value, index, len } => Step::In { value, index, len: len as nat },
            Recorded::Bulk { len } => Step::Bulk { len: len as nat },
        }
    }
}

/// The steps that a log holds.
pub open spec fn steps_of(log: Seq<Recorded>) -> Seq<Step> {
    log.map_values(|r: Recorded| r@)
}

/// The writes among a run of steps, in order, as `(value, index, data)`.
pub open spec fn writes_among(steps: Seq<Step>) -> Seq<(u16, u16, Seq<u8>)>
    decreases steps.len(),
{
    if steps.len() == 0 {
        seq![]
    } else {
        let earlier = writes_among(steps.drop_last());
        match steps.last() {
            Step::Out { value, index, data } => earlier.push((value, index, data)),
            _ => earlier,
        }
    }
}

/// Whether a step writes to this `value` and `index`.
pub open spec fn writes_to(step: Step, value: u16, index: u16) -> bool {
    step matches Step::Out { value: v, index: i, .. } && v == value && i == index
}

/// Whether two runs of bytes are the same.
pub fn bytes_equal(a: &[u8], b: &[u8]) -> (same: bool)
    ensures
        same == (a@ == b@),
{
    if a.len() != b.len() {
        return false;
    }
    let mut i: usize = 0;
    while i < a.len()
        invariant
            i <= a@.len(),
            a@.len() == b@.len(),
            forall|j: int| 0 <= j < i ==> a@[j] == b@[j],
        decreases a@.len() - i,
    {
        if a[i] != b[i] {
            return false;
        }
        i += 1;
    }
    assert(a@ =~= b@);
    true
}

/// Transport that records every transfer and replays canned responses.
///
/// The driver's initialisation is a long, ordered sequence where a single misplaced write
/// leaves the device in a state that fails much later and somewhere else. Recording lets a
/// test assert on the exact sequence, which turns that class of bug into a diff.
pub struct MockTransport {
    pub log: Vec<Recorded>,
    /// Responses handed back to `control_in`, in order. Once exhausted, reads return
    /// zeroes, which is what an absent device looks like.
    pub responses: VecDeque<Vec<u8>>,
    /// Set to make every subsequent transfer fail, to exercise error paths.
    pub fail_after: Option<usize>,
    /// What the specification knows of every transfer, failed ones too.
    pub trace: Ghost<Seq<Exchange>>,
}

impl Default for MockTransport {
    fn default() -> (mock: Self)
        ensures
            mock.log@ == Seq::<Recorded>::empty(),
            mock.responses@ == Seq::<Vec<u8>>::empty(),
            mock.fail_after is None,
            mock.history() == Seq::<Exchange>::empty(),
    {
        Self {
            log: Vec::new(),
            responses: VecDeque::new(),
            fail_after: None,
            trace: Ghost(Seq::empty()),
        }
    }
}

impl MockTransport {
    pub fn new() -> (mock: Self)
        ensures
            mock.log@ == Seq::<Recorded>::empty(),
            mock.responses@ == Seq::<Vec<u8>>::empty(),
            mock.fail_after is None,
            mock.history() == Seq::<Exchange>::empty(),
    {
        Self::default()
    }

    /// Queues a response for a later `control_in`.
    pub fn push_response(&mut self, data: Vec<u8>)
        ensures
            final(self).responses@ == old(self).responses@.push(data),
            final(self).log == old(self).log,
            final(self).fail_after == old(self).fail_after,
            final(self).history() == old(self).history(),
    {
        self.responses.push_back(data);
    }

    /// Every write, as `(value, index, data)`.
    pub fn writes(&self) -> (found: Vec<(u16, u16, Vec<u8>)>)
        ensures
            found@.map_values(|w: (u16, u16, Vec<u8>)| (w.0, w.1, w.2@)) == writes_among(
                steps_of(self.log@),
            ),
    {
        let mut found: Vec<(u16, u16, Vec<u8>)> = Vec::new();
        let ghost plain = |w: (u16, u16, Vec<u8>)| (w.0, w.1, w.2@);
        let mut i: usize = 0;
        assert(steps_of(self.log@).take(0) =~= seq![]);
        while i < self.log.len()
            invariant
                i <= self.log@.len(),
                plain == (|w: (u16, u16, Vec<u8>)| (w.0, w.1, w.2@)),
                found@.map_values(plain) == writes_among(steps_of(self.log@).take(i as int)),
            decreases self.log@.len() - i,
        {
            proof {
                let seen = steps_of(self.log@).take(i + 1);
                assert(seen.drop_last() =~= steps_of(self.log@).take(i as int));
                assert(seen.last() == self.log@[i as int]@);
            }
            let ghost before = found@;
            if let Recorded::Out { value, index, data } = &self.log[i] {
                let copy = vstd::slice::slice_to_vec(data.as_slice());
                found.push((*value, *index, copy));
                proof {
                    assert(found@.map_values(plain) =~= before.map_values(plain).push(
                        (*value, *index, copy@),
                    ));
                }
            }
            i += 1;
        }
        assert(steps_of(self.log@).take(i as int) =~= steps_of(self.log@));
        found
    }

    /// Whether a write with exactly these arguments was recorded.
    pub fn wrote(&self, value: u16, index: u16, data: &[u8]) -> (found: bool)
        ensures
            found == steps_of(self.log@).contains(Step::Out { value, index, data: data@ }),
    {
        let ghost wanted = Step::Out { value, index, data: data@ };
        let mut i: usize = 0;
        while i < self.log.len()
            invariant
                i <= self.log@.len(),
                wanted == (Step::Out { value, index, data: data@ }),
                forall|j: int| 0 <= j < i ==> steps_of(self.log@)[j] != wanted,
            decreases self.log@.len() - i,
        {
            if let Recorded::Out { value: v, index: x, data: d } = &self.log[i] {
                if *v == value && *x == index && bytes_equal(d.as_slice(), data) {
                    assert(steps_of(self.log@)[i as int] == wanted);
                    return true;
                }
            }
            i += 1;
        }
        false
    }

    /// Position of a matching write in the log, for asserting on ordering.
    pub fn position_of(&self, value: u16, index: u16) -> (position: Option<usize>)
        ensures
            match position {
                Some(p) => {
                    &&& p < self.log@.len()
                    &&& writes_to(self.log@[p as int]@, value, index)
                    &&& forall|j: int|
                        0 <= j < p ==> !writes_to((#[trigger] self.log@[j])@, value, index)
                },
                None => forall|j: int|
                    0 <= j < self.log@.len() ==> !writes_to(
                        (#[trigger] self.log@[j])@,
                        value,
                        index,
                    ),
            },
    {
        let mut i: usize = 0;
        while i < self.log.len()
            invariant
                i <= self.log@.len(),
                forall|j: int| 0 <= j < i ==> !writes_to((#[trigger] self.log@[j])@, value, index),
            decreases self.log@.len() - i,
        {
            if let Recorded::Out { value: v, index: x, .. } = &self.log[i] {
                if *v == value && *x == index {
                    return Some(i);
                }
            }
            i += 1;
        }
        None
    }

    pub fn clear(&mut self)
        ensures
            final(self).log@ == Seq::<Recorded>::empty(),
            final(self).responses == old(self).responses,
            final(self).fail_after == old(self).fail_after,
            final(self).history() == old(self).history(),
    {
        self.log.clear();
    }

    /// What decides how the mock answers.
    pub open spec fn state(&self) -> MockState {
        MockState {
            log: steps_of(self.log@),
            responses: self.responses@.map_values(|response: Vec<u8>| response@),
            fail_after: self.fail_after,
        }
    }

    /// Whether the next transfer is made to fail.
    pub open spec fn fails_next(&self) -> bool {
        self.state().fails_next()
    }

    fn check_failure(&self) -> (r: Result<(), TransportError>)
        ensures
            r == (if self.fails_next() {
                Err::<(), TransportError>(TransportError::Disconnected)
            } else {
                Ok(())
            }),
    {
        match self.fail_after {
            Some(n) if self.log.len() >= n => Err(TransportError::Disconnected),
            _ => Ok(()),
        }
    }
}

/// What decides how a mock answers.
pub struct MockState {
    pub log: Seq<Step>,
    pub responses: Seq<Seq<u8>>,
    pub fail_after: Option<usize>,
}

impl MockState {
    /// Whether the next transfer is made to fail.
    pub open spec fn fails_next(self) -> bool {
        self.fail_after matches Some(n) && self.log.len() >= n
    }

    /// Whether a transfer ends in this way: it fails where it is made to; a control read
    /// otherwise gets the next response, or zeroes once there is none, and a bulk read
    /// midscale samples.
    pub open spec fn ends_as(self, exchange: Exchange) -> bool {
        if self.fails_next() {
            exchange.outcome == Outcome::Failed(TransportError::Disconnected)
        } else {
            match exchange.step {
                Step::Out { .. } => exchange.outcome is Sent,
                Step::In { len, .. } => exchange.outcome matches Outcome::Received { bytes, count }
                    && bytes.len() == len && if self.responses.len() > 0 {
                    let response = self.responses[0];
                    let n = if response.len() <= len {
                        response.len() as int
                    } else {
                        len as int
                    };
                    count == n && bytes.take(n) == response.take(n)
                } else {
                    count == len && bytes == Seq::new(len, |i: int| 0u8)
                },
                Step::Bulk { len } => exchange.outcome matches Outcome::Received { bytes, count }
                    && count == len && bytes == Seq::new(len, |i: int| 0x7Fu8),
            }
        }
    }

    /// After a transfer.
    pub open spec fn past(self, exchange: Exchange) -> MockState {
        if exchange.outcome is Failed {
            self
        } else {
            MockState {
                log: self.log.push(exchange.step),
                responses: if exchange.step is In && self.responses.len() > 0 {
                    self.responses.skip(1)
                } else {
                    self.responses
                },
                ..self
            }
        }
    }

    /// After the transfers of a history from position `from` on.
    pub open spec fn past_all(self, history: Seq<Exchange>, from: int) -> MockState
        decreases history.len(),
    {
        if history.len() <= from || history.len() == 0 {
            self
        } else {
            self.past_all(history.drop_last(), from).past(history.last())
        }
    }

    /// Whether the transfers of a history from position `from` on end as the mock has it.
    pub open spec fn answers_all(self, history: Seq<Exchange>, from: int) -> bool
        decreases history.len(),
    {
        if history.len() <= from || history.len() == 0 {
            true
        } else {
            &&& self.answers_all(history.drop_last(), from)
            &&& self.past_all(history.drop_last(), from).ends_as(history.last())
        }
    }
}

proof fn mock_takes_one(state: MockState, before: Seq<Exchange>, exchange: Exchange)
    ensures
        state.past_all(before.push(exchange), before.len() as int) == state.past(exchange),
        state.answers_all(before.push(exchange), before.len() as int) == state.ends_as(exchange),
{
    reveal_with_fuel(MockState::past_all, 2);
    reveal_with_fuel(MockState::answers_all, 2);
    let after = before.push(exchange);
    assert(after.drop_last() =~= before);
    assert(after.last() == exchange);
}

proof fn mock_goes_on(
    state: MockState,
    middle: Seq<Exchange>,
    after: Seq<Exchange>,
    from: int,
)
    requires
        0 <= from <= middle.len(),
        continues(middle, after),
        state.answers_all(middle, from),
        state.past_all(middle, from).answers_all(after, middle.len() as int),
    ensures
        state.answers_all(after, from),
        state.past_all(after, from) == state.past_all(middle, from).past_all(
            after,
            middle.len() as int,
        ),
    decreases after.len(),
{
    if after.len() == middle.len() {
        assert(after =~= middle);
    } else {
        mock_goes_on(state, middle, after.drop_last(), from);
    }
}

proof fn mock_never_fails(state: MockState, before: Seq<Exchange>, after: Seq<Exchange>)
    requires
        before.len() <= after.len(),
        state.fail_after is None,
        state.answers_all(after, before.len() as int),
    ensures
        undisturbed(before, after),
        state.past_all(after, before.len() as int).fail_after is None,
    decreases after.len(),
{
    if after.len() > before.len() {
        let shorter = after.drop_last();
        mock_never_fails(state, before, shorter);
        assert forall|i: int| before.len() <= i < after.len() implies (
        #[trigger] after[i]).outcome !is Failed by {
            if i < shorter.len() {
                assert(shorter[i] == after[i]);
            } else {
                assert(after[i] == after.last());
            }
        }
    }
}

/// The steps of a history from position `from` on.
pub open spec fn steps_since(history: Seq<Exchange>, from: int) -> Seq<Step> {
    history.skip(from).map_values(|e: Exchange| e.step)
}

/// The log of a mock that fails nowhere is the steps of its history.
pub proof fn steady_mocks_log_every_step(earlier: MockTransport, later: MockTransport)
    requires
        later.reached_from(&earlier),
        earlier.steady(),
    ensures
        steps_of(later.log@) == steps_of(earlier.log@) + steps_since(
            later.history(),
            earlier.history().len() as int,
        ),
{
    steady_logs(earlier.state(), earlier.history(), later.history());
}

proof fn steady_logs(state: MockState, before: Seq<Exchange>, after: Seq<Exchange>)
    requires
        before.len() <= after.len(),
        state.fail_after is None,
        state.answers_all(after, before.len() as int),
    ensures
        state.past_all(after, before.len() as int).log == state.log + steps_since(
            after,
            before.len() as int,
        ),
    decreases after.len(),
{
    let from = before.len() as int;
    if after.len() > from {
        let shorter = after.drop_last();
        steady_logs(state, before, shorter);
        mock_never_fails(state, before, after);
        assert(after.last() == after[after.len() - 1]);
        assert(steps_since(after, from) =~= steps_since(shorter, from).push(after.last().step));
    }
    assert(state.past_all(after, from).log =~= state.log + steps_since(after, from));
}

/// How many control reads there are among the transfers from position `from` up to `to`.
pub open spec fn reads_between(history: Seq<Exchange>, from: int, to: int) -> nat
    decreases to - from,
{
    if to <= from {
        0
    } else {
        reads_between(history, from, to - 1) + (if history[to - 1].step is In {
            1nat
        } else {
            0
        })
    }
}

/// The control reads of a mock that fails nowhere get its queued responses in order, and
/// zeroes once those have run out; every other transfer goes through as well.
pub proof fn steady_mocks_answer_in_order(earlier: MockTransport, later: MockTransport, i: int)
    requires
        later.reached_from(&earlier),
        earlier.steady(),
        earlier.history().len() <= i < later.history().len(),
    ensures
        ({
            let read = reads_between(later.history(), earlier.history().len() as int, i);
            let exchange = later.history()[i];
            match exchange.step {
                Step::Out { .. } => exchange.outcome is Sent,
                Step::In { len, .. } => if read < earlier.responses@.len() {
                    let response = earlier.responses@[read as int]@;
                    let n = if response.len() <= len {
                        response.len() as int
                    } else {
                        len as int
                    };
                    exchange.bytes().len() == len && exchange.bytes().take(n) == response.take(n)
                } else {
                    exchange.bytes() == Seq::new(len, |j: int| 0u8)
                },
                Step::Bulk { len } => exchange.bytes() == Seq::new(len, |j: int| 0x7Fu8),
            }
        }),
{
    let from = earlier.history().len() as int;
    let state = earlier.state();
    queue_shrinks(state, later.history(), from, i + 1);
    queue_shrinks(state, later.history(), from, i);
    let upto = later.history().take(i + 1);
    assert(upto.drop_last() =~= later.history().take(i));
    assert(upto.last() == later.history()[i]);
    let read = reads_between(later.history(), from, i) as int;
    let left = state.past_all(later.history().take(i), from).responses;
    if read < earlier.responses@.len() {
        assert(left[0] == earlier.responses@[read]@);
    }
}

proof fn queue_shrinks(state: MockState, history: Seq<Exchange>, from: int, to: int)
    requires
        0 <= from <= to <= history.len(),
        state.fail_after is None,
        state.answers_all(history, from),
    ensures
        state.answers_all(history.take(to), from),
        ({
            let past = state.past_all(history.take(to), from);
            let read = reads_between(history, from, to) as int;
            &&& past.fail_after is None
            &&& past.responses == if read <= state.responses.len() {
                state.responses.skip(read)
            } else {
                seq![]
            }
        }),
    decreases history.len() + to,
{
    if to < history.len() {
        // The transfers past `to` do not matter.
        answers_so_far(state, history, from, to);
    } else {
        assert(history.take(to) =~= history);
    }
    let upto = history.take(to);
    if to > from {
        let shorter = history.take(to - 1);
        queue_shrinks(state, history, from, to - 1);
        assert(upto.drop_last() =~= shorter);
        assert(upto.last() == history[to - 1]);
        let read = reads_between(history, from, to - 1) as int;
        let left = state.past_all(shorter, from).responses;
        if read < state.responses.len() {
            assert(left.skip(1) =~= state.responses.skip(read + 1));
        } else {
            assert(left =~= seq![]);
        }
        assert(state.past_all(upto, from).responses =~= if reads_between(history, from, to)
            <= state.responses.len() {
            state.responses.skip(reads_between(history, from, to) as int)
        } else {
            seq![]
        });
    } else {
        assert(state.responses.skip(0) =~= state.responses);
    }
}

proof fn answers_so_far(state: MockState, history: Seq<Exchange>, from: int, to: int)
    requires
        0 <= from <= to <= history.len(),
        state.answers_all(history, from),
    ensures
        state.answers_all(history.take(to), from),
    decreases history.len(),
{
    if to == history.len() {
        assert(history.take(to) =~= history);
    } else {
        answers_so_far(state, history.drop_last(), from, to);
        assert(history.drop_last().take(to) =~= history.take(to));
    }
}

/// Overwrites the start of `data` with as much of `source` as fits.
pub(crate) fn fill_from(data: &mut [u8], source: &[u8]) -> (n: usize)
    ensures
        n == if source@.len() <= old(data)@.len() {
            source@.len()
        } else {
            old(data)@.len()
        },
        final(data)@ == source@.take(n as int) + old(data)@.skip(n as int),
{
    let n: usize = if source.len() <= data.len() {
        source.len()
    } else {
        data.len()
    };
    let mut i: usize = 0;
    while i < n
        invariant
            i <= n,
            n <= source@.len(),
            n <= data@.len(),
            data@ == source@.take(i as int) + old(data)@.skip(i as int),
            data@.len() == old(data)@.len(),
        decreases n - i,
    {
        data[i] = source[i];
        i += 1;
        assert(data@ =~= source@.take(i as int) + old(data)@.skip(i as int));
    }
    n
}

/// Sets every byte of `data` to `value`.
fn fill_with(data: &mut [u8], value: u8)
    ensures
        final(data)@ == Seq::new(old(data)@.len(), |i: int| value),
{
    let n: usize = data.len();
    let mut i: usize = 0;
    while i < n
        invariant
            i <= n,
            n == data@.len(),
            data@.len() == old(data)@.len(),
            forall|j: int| 0 <= j < i ==> data@[j] == value,
        decreases n - i,
    {
        data[i] = value;
        i += 1;
    }
    assert(data@ =~= Seq::new(old(data)@.len(), |i: int| value));
}

impl Transport for MockTransport {
    open spec fn history(&self) -> Seq<Exchange> {
        self.trace@
    }

    open spec fn steady(&self) -> bool {
        self.fail_after is None
    }

    open spec fn reached_from(&self, earlier: &Self) -> bool {
        let from = earlier.history().len() as int;
        &&& continues(earlier.history(), self.history())
        &&& earlier.state().answers_all(self.history(), from)
        &&& self.state() == earlier.state().past_all(self.history(), from)
    }

    proof fn reached_from_itself(&self) {
    }

    proof fn reached_in_two(first: &Self, second: &Self, third: &Self) {
        mock_goes_on(
            first.state(),
            second.history(),
            third.history(),
            first.history().len() as int,
        );
    }

    proof fn steadiness_lasts(earlier: &Self, later: &Self) {
        if earlier.steady() {
            mock_never_fails(earlier.state(), earlier.history(), later.history());
        }
    }

    fn control_out(&mut self, request: ControlRequest, data: &[u8]) -> (r: Result<
        (),
        TransportError,
    >)
        ensures
            r == (if old(self).fails_next() {
                Err::<(), TransportError>(TransportError::Disconnected)
            } else {
                Ok(())
            }),
            steps_of(final(self).log@) == if r is Ok {
                steps_of(old(self).log@).push(
                    Step::Out { value: request.value, index: request.index, data: data@ },
                )
            } else {
                steps_of(old(self).log@)
            },
            final(self).responses == old(self).responses,
            final(self).fail_after == old(self).fail_after,
    {
        let r = self.check_failure();
        if r.is_ok() {
            let copy = vstd::slice::slice_to_vec(data);
            self.log.push(
                Recorded::Out { value: request.value, index: request.index, data: copy },
            );
        }
        proof {
            self.trace@ = self.trace@.push(
                Exchange {
                    direction: Some(request.direction),
                    step: Step::Out { value: request.value, index: request.index, data: data@ },
                    outcome: Outcome::of_write(r),
                },
            );
            mock_takes_one(old(self).state(), old(self).trace@, self.trace@.last());
            let past = old(self).state().past(self.trace@.last());
            assert(self.state().log =~= past.log);
            assert(self.state().responses =~= past.responses);
        }
        r
    }

    fn control_in(&mut self, request: ControlRequest, data: &mut [u8]) -> (r: Result<
        usize,
        TransportError,
    >)
        ensures
            r is Err == old(self).fails_next(),
            r matches Err(e) ==> e == TransportError::Disconnected,
            r is Err ==> final(data)@ == old(data)@ && final(self).log == old(self).log
                && final(self).responses@ == old(self).responses@,
            r is Ok ==> steps_of(final(self).log@) == steps_of(old(self).log@).push(
                Step::In { value: request.value, index: request.index, len: old(data)@.len() },
            ),
            r matches Ok(n) ==> if old(self).responses@.len() > 0 {
                let response = old(self).responses@[0]@;
                &&& n == if response.len() <= old(data)@.len() {
                    response.len()
                } else {
                    old(data)@.len()
                }
                &&& final(data)@ == response.take(n as int) + old(data)@.skip(n as int)
                &&& final(self).responses@ == old(self).responses@.skip(1)
            } else {
                &&& n == old(data)@.len()
                &&& final(data)@ == Seq::new(old(data)@.len(), |i: int| 0u8)
                &&& final(self).responses@ == old(self).responses@
            },
            final(self).fail_after == old(self).fail_after,
    {
        let r = match self.check_failure() {
            Err(e) => Err(e),
            Ok(()) => {
                self.log.push(
                    Recorded::In { value: request.value, index: request.index, len: data.len() },
                );
                match self.responses.pop_front() {
                    Some(response) => Ok(fill_from(data, response.as_slice())),
                    None => {
                        fill_with(data, 0);
                        Ok(data.len())
                    },
                }
            },
        };
        proof {
            self.trace@ = self.trace@.push(
                Exchange {
                    direction: Some(request.direction),
                    step: Step::In {
                        value: request.value,
                        index: request.index,
                        len: old(data)@.len(),
                    },
                    outcome: Outcome::of_read(r, data@),
                },
            );
            mock_takes_one(old(self).state(), old(self).trace@, self.trace@.last());
            let past = old(self).state().past(self.trace@.last());
            if r is Ok && old(self).responses@.len() > 0 {
                let n = r->Ok_0 as int;
                assert(old(self).state().responses[0] == old(self).responses@[0]@);
                assert(data@.take(n) =~= old(self).responses@[0]@.take(n));
            }
            assert(self.state().log =~= past.log);
            assert(self.state().responses =~= past.responses);
        }
        r
    }

    fn bulk_in(&mut self, data: &mut [u8]) -> (r: Result<usize, TransportError>)
        ensures
            r is Err == old(self).fails_next(),
            r matches Err(e) ==> e == TransportError::Disconnected,
            r is Err ==> final(data)@ == old(data)@ && final(self).log == old(self).log,
            r is Ok ==> steps_of(final(self).log@) == steps_of(old(self).log@).push(
                Step::Bulk { len: old(data)@.len() },
            ),
            r matches Ok(n) ==> n == old(data)@.len() && final(data)@ == Seq::new(
                old(data)@.len(),
                |i: int| 0x7Fu8,
            ),
            final(self).responses == old(self).responses,
            final(self).fail_after == old(self).fail_after,
    {
        let r = match self.check_failure() {
            Err(e) => Err(e),
            Ok(()) => {
                self.log.push(Recorded::Bulk { len: data.len() });
                fill_with(data, 0x7F);
                Ok(data.len())
            },
        };
        proof {
            self.trace@ = self.trace@.push(
                Exchange {
                    direction: None,
                    step: Step::Bulk { len: old(data)@.len() },
                    outcome: Outcome::of_read(r, data@),
                },
            );
            mock_takes_one(old(self).state(), old(self).trace@, self.trace@.last());
            let past = old(self).state().past(self.trace@.last());
            assert(self.state().log =~= past.log);
            assert(self.state().responses =~= past.responses);
        }
        r
    }
}

} // verus!
