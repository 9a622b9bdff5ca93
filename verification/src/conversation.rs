//! A mathematical record of what passes over the bus.
//!
//! The driver is a long list of ordered transfers, and a transfer can fail at any point.
//! Its contracts are therefore stated over the history of a transport: which transfers a
//! call was going to make (its plan), and how far it got.

use vstd::prelude::*;

use crate::transport::{Direction, TransportError};

verus! {

/// One transfer, as it was asked for.
pub enum Step {
    /// A control transfer towards the device.
    Out { value: u16, index: u16, data: Seq<u8> },
    /// A control transfer from the device into a buffer of `len` bytes.
    In { value: u16, index: u16, len: nat },
    /// A bulk transfer from the device into a buffer of `len` bytes.
    Bulk { len: nat },
}

/// How a transfer ended.
pub enum Outcome {
    /// The data went out.
    Sent,
    /// `count` bytes were reported, and the buffer held `bytes` afterwards.
    Received { bytes: Seq<u8>, count: usize },
    /// The transfer failed.
    Failed(TransportError),
}

impl Outcome {
    /// How a write with this result ended.
    pub open spec fn of_write(r: Result<(), TransportError>) -> Outcome {
        match r {
            Ok(_) => Outcome::Sent,
            Err(e) => Outcome::Failed(e),
        }
    }

    /// How a read with this result ended, the buffer holding `bytes` afterwards.
    pub open spec fn of_read(r: Result<usize, TransportError>, bytes: Seq<u8>) -> Outcome {
        match r {
            Ok(count) => Outcome::Received { bytes, count },
            Err(e) => Outcome::Failed(e),
        }
    }
}

/// A transfer together with how it ended.
pub struct Exchange {
    /// The direction that the request of a control transfer gave; a bulk transfer has none.
    pub direction: Option<Direction>,
    pub step: Step,
    pub outcome: Outcome,
}

impl Exchange {
    /// The request asked for the direction that the transfer went.
    pub open spec fn directed(self) -> bool {
        self.direction == match self.step {
            Step::Out { .. } => Some(Direction::Out),
            Step::In { .. } => Some(Direction::In),
            Step::Bulk { .. } => None,
        }
    }

    /// What the buffer of a read held afterwards.
    pub open spec fn bytes(self) -> Seq<u8> {
        self.outcome->bytes
    }

    /// The failure, where the transfer failed.
    pub open spec fn failure(self) -> Option<TransportError> {
        match self.outcome {
            Outcome::Failed(e) => Some(e),
            _ => None,
        }
    }
}

/// The failure that a result carries, if any.
pub open spec fn failure_of<A>(r: Result<A, TransportError>) -> Option<TransportError> {
    match r {
        Ok(_) => None,
        Err(e) => Some(e),
    }
}

/// `after` continues `before`.
pub open spec fn continues(before: Seq<Exchange>, after: Seq<Exchange>) -> bool {
    &&& before.len() <= after.len()
    &&& forall|i: int| 0 <= i < before.len() ==> #[trigger] after[i] == before[i]
}

/// No transfer after `before` failed.
pub open spec fn undisturbed(before: Seq<Exchange>, after: Seq<Exchange>) -> bool {
    forall|i: int| before.len() <= i < after.len() ==> (#[trigger] after[i]).outcome !is Failed
}

/// Between `before` and `after` the transfers of `plan` were made in order, each asked for in
/// the direction that it went.
///
/// Without a failure all of them were made and none failed. With one, the transfers up to
/// and including the failing one were made and nothing came after it.
pub open spec fn carried(
    before: Seq<Exchange>,
    after: Seq<Exchange>,
    plan: Seq<Step>,
    failure: Option<TransportError>,
) -> bool {
    let made = after.len() - before.len();
    &&& continues(before, after)
    &&& made <= plan.len()
    &&& forall|i: int|
        before.len() <= i < after.len() ==> (#[trigger] after[i]).step == plan[i - before.len()]
            && after[i].directed()
    &&& match failure {
        None => {
            &&& made == plan.len()
            &&& forall|i: int|
                before.len() <= i < after.len() ==> (#[trigger] after[i]).outcome !is Failed
        },
        Some(e) => {
            &&& made > 0
            &&& after.last().outcome == Outcome::Failed(e)
            &&& forall|i: int|
                before.len() <= i < after.len() - 1 ==> (#[trigger] after[i]).outcome !is Failed
        },
    }
}

/// The failure that a stretch from `before` to `after` broke off with, if it did.
pub open spec fn break_off(before: Seq<Exchange>, after: Seq<Exchange>) -> Option<TransportError> {
    if after.len() > before.len() {
        after.last().failure()
    } else {
        None
    }
}

/// The transfers at the positions from `from` up to `to` were made and none failed.
pub open spec fn went_through(history: Seq<Exchange>, from: int, to: int) -> bool {
    &&& to <= history.len()
    &&& forall|i: int| from <= i < to ==> (#[trigger] history[i]).outcome !is Failed
}

/// Two plans, one after the other: the first was carried through and the second then got
/// as far as it got.
pub broadcast proof fn carried_in_turn(
    before: Seq<Exchange>,
    middle: Seq<Exchange>,
    after: Seq<Exchange>,
    first: Seq<Step>,
    second: Seq<Step>,
    failure: Option<TransportError>,
)
    requires
        #[trigger] carried(before, middle, first, None),
        #[trigger] carried(middle, after, second, failure),
    ensures
        carried(before, after, #[trigger] (first + second), failure),
{
    let plan = first + second;
    assert forall|i: int| 0 <= i < before.len() implies #[trigger] after[i] == before[i] by {
        assert(middle[i] == before[i]);
    }
    assert forall|i: int| before.len() <= i < after.len() implies (#[trigger] after[i]).step
        == plan[i - before.len()] by {
        if i < middle.len() {
            assert(middle[i] == after[i]);
        }
    }
    assert forall|i: int| before.len() <= i < middle.len() implies (
    #[trigger] after[i]).outcome !is Failed by {
        assert(middle[i] == after[i]);
    }
}

/// A plan that broke off breaks off in the same place when more was to follow.
pub broadcast proof fn carried_broken_off(
    before: Seq<Exchange>,
    after: Seq<Exchange>,
    first: Seq<Step>,
    second: Seq<Step>,
    e: TransportError,
)
    requires
        #[trigger] carried(before, after, first, Some(e)),
    ensures
        carried(before, after, #[trigger] (first + second), Some(e)),
{
    let plan = first + second;
    assert forall|i: int| before.len() <= i < after.len() implies (#[trigger] after[i]).step
        == plan[i - before.len()] by {
        assert(plan[i - before.len()] == first[i - before.len()]);
    }
}

pub broadcast group group_carried {
    carried_in_turn,
    carried_broken_off,
}

} // verus!
