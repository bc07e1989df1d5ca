//! Calls that wait for frames from the broker.

use std::collections::BTreeMap;
use vstd::prelude::*;

verus! {

/// Where the frames of a call are sent on to, and whether the call is over with the first one.
#[derive(Debug)]
pub struct PendingCall<S> {
    pub sender: S,
    pub one_shot: bool,
}

/// The calls that wait for frames, by request id.
#[derive(Debug)]
pub struct PendingCalls<S> {
    calls: BTreeMap<i64, PendingCall<S>>,
}

impl<S> View for PendingCalls<S> {
    type V = Map<i64, PendingCall<S>>;

    closed spec fn view(&self) -> Map<i64, PendingCall<S>> {
        self.calls@
    }
}

/// The calls that still wait after a frame with this request id was sent on.
pub open spec fn settled<S>(calls: Map<i64, PendingCall<S>>, request_id: i64) -> Map<
    i64,
    PendingCall<S>,
> {
    if calls.contains_key(request_id) && calls[request_id].one_shot {
        calls.remove(request_id)
    } else {
        calls
    }
}

impl<S> PendingCalls<S> {
    /// No calls.
    pub fn new() -> (r: PendingCalls<S>)
        ensures
            r@ == Map::<i64, PendingCall<S>>::empty(),
    {
        PendingCalls { calls: BTreeMap::new() }
    }

    /// Lets a call wait for frames; it takes the place of an earlier one with the same id.
    pub fn register(&mut self, request_id: i64, sender: S, one_shot: bool)
        ensures
            final(self)@ == old(self)@.insert(request_id, PendingCall { sender, one_shot }),
    {
        broadcast use vstd::std_specs::btree::group_btree_axioms;

        self.calls.insert(request_id, PendingCall { sender, one_shot });
    }

    /// Lets a call wait no longer.
    pub fn unregister(&mut self, request_id: i64)
        ensures
            final(self)@ == old(self)@.remove(request_id),
    {
        broadcast use vstd::std_specs::btree::group_btree_axioms;

        self.calls.remove(&request_id);
    }

    /// Finds the call with this request id.
    pub fn find(&self, request_id: i64) -> (r: Option<&PendingCall<S>>)
        ensures
            match r {
                Some(call) => self@.contains_key(request_id) && self@[request_id] == *call,
                None => !self@.contains_key(request_id),
            },
    {
        broadcast use vstd::std_specs::btree::group_btree_axioms;

        self.calls.get(&request_id)
    }

    /// Takes note that a frame with this request id was sent on.
    pub fn settle(&mut self, request_id: i64)
        ensures
            final(self)@ == settled(old(self)@, request_id),
    {
        let over = match self.find(request_id) {
            Some(call) => call.one_shot,
            None => false,
        };
        if over {
            self.unregister(request_id);
        }
    }
}

/// How many frames are sent on to the call with this request id when frames with `ids` arrive.
pub open spec fn sent_on<S>(
    calls: Map<i64, PendingCall<S>>,
    ids: Seq<i64>,
    request_id: i64,
) -> nat
    decreases ids.len(),
{
    if ids.len() == 0 {
        0
    } else {
        let rest = sent_on(settled(calls, ids[0]), ids.skip(1), request_id);
        if ids[0] == request_id && calls.contains_key(request_id) {
            rest + 1
        } else {
            rest
        }
    }
}

/// No frame is sent on to a call that does not wait.
proof fn lemma_none_sent_on<S>(calls: Map<i64, PendingCall<S>>, ids: Seq<i64>, request_id: i64)
    requires
        !calls.contains_key(request_id),
    ensures
        sent_on(calls, ids, request_id) == 0,
    decreases ids.len(),
{
    if ids.len() > 0 {
        lemma_none_sent_on(settled(calls, ids[0]), ids.skip(1), request_id);
    }
}

/// A call that is over with its first frame gets exactly one, however many arrive, and none after
/// it was unregistered.
pub proof fn law_one_shot_gets_one_frame<S>(
    calls: Map<i64, PendingCall<S>>,
    ids: Seq<i64>,
    request_id: i64,
)
    requires
        calls.contains_key(request_id),
        calls[request_id].one_shot,
    ensures
        sent_on(calls, ids, request_id) == (if ids.contains(request_id) {
            1nat
        } else {
            0nat
        }),
        sent_on(calls.remove(request_id), ids, request_id) == 0,
    decreases ids.len(),
{
    lemma_none_sent_on(calls.remove(request_id), ids, request_id);
    if ids.len() > 0 {
        let tail = ids.skip(1);
        if ids[0] == request_id {
            lemma_none_sent_on(settled(calls, ids[0]), tail, request_id);
            assert(ids.contains(request_id));
        } else {
            law_one_shot_gets_one_frame(settled(calls, ids[0]), tail, request_id);
            if ids.contains(request_id) {
                let k = choose|k: int| 0 <= k < ids.len() && ids[k] == request_id;
                assert(tail[k - 1] == request_id);
            } else {
                assert forall|k: int| 0 <= k < tail.len() implies tail[k] != request_id by {
                    assert(ids.contains(ids[k + 1]));
                }
            }
        }
    }
}

/// A lasting call gets every frame with its request id.
pub proof fn law_lasting_call_gets_every_frame<S>(
    calls: Map<i64, PendingCall<S>>,
    ids: Seq<i64>,
    request_id: i64,
)
    requires
        calls.contains_key(request_id),
        !calls[request_id].one_shot,
    ensures
        sent_on(calls, ids, request_id) == ids.to_multiset().count(request_id),
    decreases ids.len(),
{
    broadcast use vstd::seq_lib::group_to_multiset_ensures;

    if ids.len() > 0 {
        let tail = ids.skip(1);
        law_lasting_call_gets_every_frame(settled(calls, ids[0]), tail, request_id);
        assert(tail =~= ids.remove(0));
        assert(ids.to_multiset().count(ids[0]) > 0);
    }
}

/// A call that is registered is found under its request id, with its sender, and no other call is
/// touched. It takes the place of one with the same id.
pub proof fn law_registered_calls_are_found<S>(
    start: PendingCalls<S>,
    calls: &mut PendingCalls<S>,
    request_id: i64,
    sender: S,
    one_shot: bool,
    other: i64,
    r: (),
)
    requires
        call_ensures(PendingCalls::<S>::new, (), start),
        call_ensures(PendingCalls::<S>::register, (calls, request_id, sender, one_shot), r),
    ensures
        !start@.contains_key(other),
        final(calls)@.contains_key(request_id),
        final(calls)@[request_id].sender == sender,
        final(calls)@[request_id].one_shot == one_shot,
        other != request_id ==> final(calls)@.contains_key(other) == old(calls)@.contains_key(other)
            && final(calls)@[other] == old(calls)@[other],
{
}

/// A call is found exactly if it waits, as it was registered.
pub proof fn law_waiting_calls_are_found<S>(
    calls: &PendingCalls<S>,
    request_id: i64,
    r: Option<&PendingCall<S>>,
)
    requires
        call_ensures(PendingCalls::<S>::find, (calls, request_id), r),
    ensures
        r is Some <==> calls@.contains_key(request_id),
        r matches Some(call) ==> *call == calls@[request_id],
{
}

/// A call is over with its first frame if it was registered so, and waits on otherwise. A frame
/// touches no call with another request id.
pub proof fn law_frames_settle_their_own_call<S>(
    calls: &mut PendingCalls<S>,
    request_id: i64,
    other: i64,
    r: (),
)
    requires
        call_ensures(PendingCalls::<S>::settle, (calls, request_id), r),
    ensures
        final(calls)@.contains_key(request_id) <==> old(calls)@.contains_key(request_id)
            && !old(calls)@[request_id].one_shot,
        final(calls)@.contains_key(request_id) ==> {
            final(calls)@[request_id] == old(calls)@[request_id]
        },
        other != request_id ==> final(calls)@.contains_key(other) == old(calls)@.contains_key(other)
            && final(calls)@[other] == old(calls)@[other],
{
}

/// A call that is unregistered waits no longer, and the others do.
pub proof fn law_unregistered_calls_are_gone<S>(
    calls: &mut PendingCalls<S>,
    request_id: i64,
    other: i64,
    r: (),
)
    requires
        call_ensures(PendingCalls::<S>::unregister, (calls, request_id), r),
    ensures
        !final(calls)@.contains_key(request_id),
        other != request_id ==> final(calls)@.contains_key(other) == old(calls)@.contains_key(other)
            && final(calls)@[other] == old(calls)@[other],
{
}

} // verus!
