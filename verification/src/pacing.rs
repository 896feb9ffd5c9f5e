//! Keeping calls to the embedding service apart.
//!
//! The service takes three calls a minute. Every call, for a document or for a query, first asks here
//! whether it may start; moments are milliseconds since some fixed start.

use vstd::prelude::*;

verus! {

/// The least time between the starts of two calls, in milliseconds.
pub const CALL_GAP_MS: u64 = 21_000;

/// How long a call that is asked for at `now` has to wait, the latest one having started at `last`.
pub open spec fn time_left(last: Option<u64>, now: u64) -> int {
    match last {
        Some(t) => if now < t + CALL_GAP_MS {
            t + CALL_GAP_MS - now
        } else {
            0
        },
        None => 0,
    }
}

/// The moments at which calls start, of those at which one is asked for.
pub open spec fn starts(last: Option<u64>, asked: Seq<u64>) -> Seq<u64>
    decreases asked.len(),
{
    if asked.len() == 0 {
        Seq::empty()
    } else if time_left(last, asked[0]) == 0 {
        seq![asked[0]] + starts(Some(asked[0]), asked.drop_first())
    } else {
        starts(last, asked.drop_first())
    }
}

/// When the latest call has started.
#[derive(Debug)]
pub struct CallPacer {
    last: Option<u64>,
}

impl CallPacer {
    /// When the latest call has started.
    pub closed spec fn last(&self) -> Option<u64> {
        self.last
    }

    /// A pacer before the first call.
    pub fn new() -> (pacer: CallPacer)
        ensures
            pacer.last() is None,
    {
        CallPacer { last: None }
    }

    /// Asks for a call at `now`. Where nothing is to be waited for, the call starts; otherwise it is
    /// to be asked for again after the time that is given.
    pub fn try_start(&mut self, now: u64) -> (wait: u64)
        ensures
            wait == if time_left(old(self).last(), now) <= u64::MAX {
                time_left(old(self).last(), now)
            } else {
                u64::MAX as int
            },
            final(self).last() == if time_left(old(self).last(), now) == 0 {
                Some(now)
            } else {
                old(self).last()
            },
    {
        if let Some(t) = self.last {
            if now < t {
                return (t - now).saturating_add(CALL_GAP_MS);
            }
            if now - t < CALL_GAP_MS {
                return CALL_GAP_MS - (now - t);
            }
        }
        self.last = Some(now);
        0
    }
}

/// Whatever calls are asked for, and whenever: the gap lies between every two that start, and between
/// them and the one before.
pub proof fn calls_keep_the_gap(last: Option<u64>, asked: Seq<u64>)
    ensures
        forall|i: int|
            0 <= i < starts(last, asked).len() ==> (last matches Some(t) ==> t + CALL_GAP_MS
                <= #[trigger] starts(last, asked)[i]),
        forall|i: int, j: int|
            #![trigger starts(last, asked)[i], starts(last, asked)[j]]
            0 <= i < j < starts(last, asked).len() ==> starts(last, asked)[i] + CALL_GAP_MS
                <= starts(last, asked)[j],
    decreases asked.len(),
{
    if asked.len() > 0 {
        let first = asked[0];
        let rest = asked.drop_first();
        let made = starts(last, asked);
        if time_left(last, first) == 0 {
            let later = starts(Some(first), rest);
            calls_keep_the_gap(Some(first), rest);
            assert(made =~= seq![first] + later);
            assert forall|i: int| 0 <= i < made.len() implies (last matches Some(t) ==> t
                + CALL_GAP_MS <= #[trigger] made[i]) by {
                if i > 0 {
                    assert(made[i] == later[i - 1]);
                }
            }
            assert forall|i: int, j: int|
                #![trigger made[i], made[j]]
                0 <= i < j < made.len() implies made[i] + CALL_GAP_MS <= made[j] by {
                assert(made[j] == later[j - 1]);
                if i > 0 {
                    assert(made[i] == later[i - 1]);
                }
            }
        } else {
            calls_keep_the_gap(last, rest);
            assert(made == starts(last, rest));
        }
    }
}

/// A call that has waited as long as it was told need not wait again, unless another has started
/// meanwhile; and at no earlier moment might it have started.
pub proof fn waiting_is_enough(last: Option<u64>, now: u64, later: u64)
    requires
        now <= later,
    ensures
        time_left(last, later) == 0 <==> later >= now + time_left(last, now),
{
}

/// The first call need not wait; any other has to wait exactly until twenty-one seconds after the one
/// before it.
pub proof fn calls_wait_for_twenty_one_seconds(t: u64, now: u64)
    ensures
        time_left(None, now) == 0,
        now >= t + 21_000 ==> time_left(Some(t), now) == 0,
        now < t + 21_000 ==> now + time_left(Some(t), now) == t + 21_000,
{
}

/// Every moment at which nothing is to be waited for starts a call, and no other does.
pub proof fn each_call_is_made_in_turn(last: Option<u64>, now: u64, later: Seq<u64>)
    ensures
        time_left(last, now) == 0 ==> starts(last, seq![now] + later) == seq![now] + starts(
            Some(now),
            later,
        ),
        time_left(last, now) != 0 ==> starts(last, seq![now] + later) == starts(last, later),
        starts(last, Seq::<u64>::empty()) == Seq::<u64>::empty(),
{
    assert((seq![now] + later).drop_first() =~= later);
}

} // verus!
