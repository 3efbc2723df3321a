//! The call into tokio's channels.

use tokio::sync::oneshot;
use vstd::prelude::*;

verus! {

/// The end of a one-shot channel through which a task that waits is told that it has a place,
/// opaque here.
#[verifier::external_type_specification]
#[verifier::external_body]
#[verifier::reject_recursive_types(T)]
pub struct ExOneshotSender<T>(oneshot::Sender<T>);

/// What tells a task that waits that it has a place.
pub type Waiter = oneshot::Sender<()>;

/// The receipt of having told a task: whom, and whether it still waited. Only telling makes one.
pub struct Told {
    heard: bool,
    whom: Ghost<Waiter>,
}

impl Told {
    /// The task that was told.
    pub closed spec fn whom(self) -> Waiter {
        self.whom@
    }

    /// Whether it still waited.
    pub closed spec fn spec_heard(self) -> bool {
        self.heard
    }

    /// Whether the task that was told still waited.
    pub fn heard(&self) -> (r: bool)
        ensures
            r == self.spec_heard(),
    {
        self.heard
    }
}

/// Who was told, and what each answered, in the order of the receipts.
pub open spec fn answers(receipts: Seq<Told>) -> Seq<(Waiter, bool)> {
    Seq::new(receipts.len(), |i: int| (receipts[i].whom(), receipts[i].spec_heard()))
}

/// Calls `tokio::sync::oneshot::Sender::send`: tells the task at the other end of `waiter`. The
/// receipt names it, and holds whether the call found it there. That rests on the other task,
/// so nothing is claimed of it.
#[verifier::external_body]
pub(crate) fn wake(waiter: Waiter) -> (r: Told)
    ensures
        r.whom() == waiter,
{
    Told { whom: Ghost(waiter), heard: waiter.send(()).is_ok() }
}

} // verus!
