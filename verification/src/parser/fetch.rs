//! The decisions of fetching one planned bundle range from the CDN: whether a
//! reply is kept, and whether to ask again.
use vstd::prelude::*;

verus! {

/// How many times a bundle range is asked for before giving up.
pub const MAX_ATTEMPTS: u32 = 3;

/// What one request for a bundle range brought.
#[derive(Debug, Clone, Copy, PartialEq, Eq, Structural)]
pub enum FetchOutcome {
    /// A reply with a body of this many bytes.
    Received(usize),
    /// The request or the reading of its body failed.
    Failed,
}

/// What to do after a request.
#[derive(Debug, Clone, Copy, PartialEq, Eq, Structural)]
pub enum FetchAction {
    /// Keep the reply's bytes and stop.
    Store,
    /// Ask again.
    Retry,
    /// Stop without bytes: the last attempt brought the wrong number of bytes.
    Abandon,
    /// Stop without bytes and report that every attempt failed.
    GiveUp,
}

/// The action after attempt `attempt` (counting from 1) brought `outcome`,
/// where the range holds `expected` bytes.
pub open spec fn spec_next_fetch_action(
    attempt: u32,
    outcome: FetchOutcome,
    expected: usize,
) -> FetchAction {
    match outcome {
        FetchOutcome::Received(len) => if len == expected {
            FetchAction::Store
        } else if attempt < MAX_ATTEMPTS {
            FetchAction::Retry
        } else {
            FetchAction::Abandon
        },
        FetchOutcome::Failed => if attempt < MAX_ATTEMPTS {
            FetchAction::Retry
        } else {
            FetchAction::GiveUp
        },
    }
}

/// The action after attempt `attempt` (counting from 1, at most
/// [`MAX_ATTEMPTS`]) brought `outcome`, where the range holds `expected` bytes:
/// a reply of exactly `expected` bytes is kept; anything else is asked for
/// again until the attempts run out.
pub fn next_fetch_action(attempt: u32, outcome: FetchOutcome, expected: usize) -> (action:
    FetchAction)
    requires
        1 <= attempt <= MAX_ATTEMPTS,
    ensures
        action == spec_next_fetch_action(attempt, outcome, expected),
        action == FetchAction::Store <==> outcome == FetchOutcome::Received(expected),
        action == FetchAction::Retry ==> attempt < MAX_ATTEMPTS,
{
    match outcome {
        FetchOutcome::Received(len) => {
            if len == expected {
                FetchAction::Store
            } else if attempt < MAX_ATTEMPTS {
                FetchAction::Retry
            } else {
                FetchAction::Abandon
            }
        },
        FetchOutcome::Failed => {
            if attempt < MAX_ATTEMPTS {
                FetchAction::Retry
            } else {
                FetchAction::GiveUp
            }
        },
    }
}

/// One of `replies` brought exactly `expected` bytes.
pub open spec fn got_expected(replies: Seq<FetchOutcome>, expected: usize) -> bool {
    exists|i: int| 0 <= i < replies.len() && replies[i] == FetchOutcome::Received(expected)
}

/// The fetching of one bundle range: how many requests were made, whether it
/// is over and whether a reply was kept. The caller makes each request and
/// hands its outcome to [`record`][Self::record] until
/// [`is_finished`][Self::is_finished].
pub struct FetchAttempts {
    expected: usize,
    requests: u32,
    finished: bool,
    stored: bool,
    replies: Ghost<Seq<FetchOutcome>>,
}

impl FetchAttempts {
    /// The outcomes of the requests made so far, in order.
    pub closed spec fn replies(&self) -> Seq<FetchOutcome> {
        self.replies@
    }

    /// Number of bytes that the range holds.
    pub closed spec fn expected(&self) -> usize {
        self.expected
    }

    /// No more requests are to be made.
    pub closed spec fn finished(&self) -> bool {
        self.finished
    }

    /// A reply was kept.
    pub closed spec fn stored(&self) -> bool {
        self.stored
    }

    /// The state agrees with the requests made.
    pub closed spec fn wf(&self) -> bool {
        &&& self.requests == self.replies@.len()
        &&& self.requests <= MAX_ATTEMPTS
        &&& self.stored <==> got_expected(self.replies@, self.expected)
        &&& self.stored ==> self.finished
        &&& !self.finished ==> self.requests < MAX_ATTEMPTS
        &&& self.finished ==> self.stored || self.requests == MAX_ATTEMPTS
    }

    /// The fetching of a range of `expected` bytes, before any request.
    pub fn new(expected: usize) -> (f: FetchAttempts)
        ensures
            f.wf(),
            f.expected() == expected,
            f.replies() == Seq::<FetchOutcome>::empty(),
            !f.finished(),
            !f.stored(),
    {
        FetchAttempts { expected, requests: 0, finished: false, stored: false, replies: Ghost(Seq::empty()) }
    }

    /// No more requests are to be made.
    pub fn is_finished(&self) -> (b: bool)
        ensures
            b == self.finished(),
    {
        self.finished
    }

    /// Takes in the outcome of the next request and says what to do with it.
    pub fn record(&mut self, outcome: FetchOutcome) -> (action: FetchAction)
        requires
            old(self).wf(),
            !old(self).finished(),
        ensures
            final(self).wf(),
            final(self).expected() == old(self).expected(),
            final(self).replies() == old(self).replies().push(outcome),
            action == spec_next_fetch_action(
                (old(self).replies().len() + 1) as u32,
                outcome,
                old(self).expected(),
            ),
            final(self).finished() <==> action != FetchAction::Retry,
            final(self).stored() <==> action == FetchAction::Store,
    {
        let attempt = self.requests + 1;
        let action = next_fetch_action(attempt, outcome, self.expected);
        let ghost old_replies = self.replies@;
        self.requests = attempt;
        self.replies = Ghost(self.replies@.push(outcome));
        self.finished = action != FetchAction::Retry;
        self.stored = action == FetchAction::Store;
        proof {
            let r = self.replies@;
            if got_expected(old_replies, self.expected) {
                let i = choose|i: int|
                    0 <= i < old_replies.len() && old_replies[i] == FetchOutcome::Received(
                        self.expected,
                    );
                assert(r[i] == old_replies[i]);
            }
            if got_expected(r, self.expected) && outcome != FetchOutcome::Received(self.expected) {
                let i = choose|i: int|
                    0 <= i < r.len() && r[i] == FetchOutcome::Received(self.expected);
                assert(i < old_replies.len());
                assert(old_replies[i] == r[i]);
            }
            if outcome == FetchOutcome::Received(self.expected) {
                assert(r[r.len() - 1] == outcome);
            }
        }
        action
    }
}

/// A range is asked for at most [`MAX_ATTEMPTS`] times; its bytes are kept
/// exactly when one of the replies had the expected length; and the fetching
/// ends without bytes only once every attempt has been made.
pub proof fn lemma_fetch_is_bounded(f: FetchAttempts)
    requires
        f.wf(),
    ensures
        f.replies().len() <= MAX_ATTEMPTS,
        f.replies().len() <= 3,
        f.stored() <==> got_expected(f.replies(), f.expected()),
        f.finished() && !f.stored() ==> f.replies().len() == MAX_ATTEMPTS,
        !f.finished() ==> f.replies().len() < MAX_ATTEMPTS,
{
}

} // verus!
