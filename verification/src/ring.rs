//! The two ends of a wait-free single-producer, single-consumer ring, over `rtrb`.
//!
//! The other end of a ring belongs to another thread, so whether there is room, or anything to
//! take, is never known beforehand. What has gone through this end is.

use vstd::prelude::*;

use crate::app_host::StreamFailure;
use crate::resource::Resource;

verus! {

/// `rtrb::Producer`, of which nothing is known but what its wrapper says.
#[verifier::external_type_specification]
#[verifier::external_body]
#[verifier::reject_recursive_types(T)]
pub struct ExProducer<T>(rtrb::Producer<T>);

/// `rtrb::Consumer`, of which nothing is known but what its wrapper says.
#[verifier::external_type_specification]
#[verifier::external_body]
#[verifier::reject_recursive_types(T)]
pub struct ExConsumer<T>(rtrb::Consumer<T>);

/// Every answer that the return ring has given to a push through this end, oldest first: the
/// resource it was offered, and whether it took it.
pub uninterp spec fn pushes_answered(producer: rtrb::Producer<Resource>) -> Seq<(Resource, bool)>;

/// The resources that were taken among those offered, in order.
pub open spec fn resources_sent(answers: Seq<(Resource, bool)>) -> Seq<Resource>
    decreases answers.len(),
{
    if answers.len() == 0 {
        Seq::empty()
    } else if answers.last().1 {
        resources_sent(answers.drop_last()).push(answers.last().0)
    } else {
        resources_sent(answers.drop_last())
    }
}

/// Every answer that the ring has given to a pop through this end, oldest first: the failure it
/// gave out, or nothing where it was empty.
pub uninterp spec fn pops_answered(
    consumer: rtrb::Consumer<StreamFailure>,
) -> Seq<Option<StreamFailure>>;

/// The failures among the answers, in order.
pub open spec fn failures_among(answers: Seq<Option<StreamFailure>>) -> Seq<StreamFailure>
    decreases answers.len(),
{
    if answers.len() == 0 {
        Seq::empty()
    } else {
        match answers.last() {
            Some(f) => failures_among(answers.drop_last()).push(f),
            None => failures_among(answers.drop_last()),
        }
    }
}

/// Answers that follow one another give their failures one after the other.
pub proof fn lemma_failures_among_in_turn(
    first: Seq<Option<StreamFailure>>,
    next: Seq<Option<StreamFailure>>,
)
    ensures
        failures_among(first + next) == failures_among(first) + failures_among(next),
    decreases next.len(),
{
    if next.len() == 0 {
        assert(first + next =~= first);
    } else {
        lemma_failures_among_in_turn(first, next.drop_last());
        assert((first + next).drop_last() =~= first + next.drop_last());
    }
}

/// One more answer adds exactly what it says: a resource that was taken is sent, a failure that was
/// given out is taken, and a refusal or an empty ring adds nothing.
pub proof fn lemma_an_answer_adds_what_it_says(
    pushes: Seq<(Resource, bool)>,
    resource: Resource,
    pops: Seq<Option<StreamFailure>>,
    failure: StreamFailure,
)
    ensures
        resources_sent(Seq::empty()).len() == 0,
        resources_sent(pushes.push((resource, true))) == resources_sent(pushes).push(resource),
        resources_sent(pushes.push((resource, false))) == resources_sent(pushes),
        failures_among(Seq::empty()).len() == 0,
        failures_among(pops.push(Some(failure))) == failures_among(pops).push(failure),
        failures_among(pops.push(None)) == failures_among(pops),
{
    assert(pushes.push((resource, true)).drop_last() =~= pushes);
    assert(pushes.push((resource, false)).drop_last() =~= pushes);
    assert(pops.push(Some(failure)).drop_last() =~= pops);
    assert(pops.push(None).drop_last() =~= pops);
}

/// `rtrb::Producer::push`: the ring is offered the value once, and its answer is handed on: it took
/// the value, or it was full, took nothing and hands this very value back. Which of the two it is,
/// is left unsaid: it depends on what the consuming thread has taken out.
#[verifier::external_body]
fn rtrb_push(producer: &mut rtrb::Producer<Resource>, value: Resource) -> (r: Result<(), Resource>)
    ensures
        pushes_answered(*final(producer)) == pushes_answered(*old(producer)).push(
            (value, r is Ok),
        ),
        r matches Err(back) ==> back == value,
{
    match producer.push(value) {
        Ok(()) => Ok(()),
        Err(rtrb::PushError::Full(back)) => Err(back),
    }
}

/// `rtrb::Consumer::pop`: the ring is asked once, and its answer is handed on: the value that was
/// taken out, or nothing when the ring was empty. Which of the two it is, and what the value is, is
/// left unsaid: it depends on what the producing thread has put in.
#[verifier::external_body]
fn rtrb_pop(consumer: &mut rtrb::Consumer<StreamFailure>) -> (r: Option<StreamFailure>)
    ensures
        pops_answered(*final(consumer)) == pops_answered(*old(consumer)).push(r),
{
    consumer.pop().ok()
}

/// The writing end.
#[verifier::reject_recursive_types(T)]
pub struct RingProducer<T> {
    producer: rtrb::Producer<T>,
}

impl RingProducer<Resource> {
    /// Every answer of the ring so far.
    pub closed spec fn answered(&self) -> Seq<(Resource, bool)> {
        pushes_answered(self.producer)
    }

    /// Every resource that has gone into the ring so far.
    pub open spec fn sent(&self) -> Seq<Resource> {
        resources_sent(self.answered())
    }

    pub fn new(producer: rtrb::Producer<Resource>) -> (p: Self)
        ensures
            p.answered() == pushes_answered(producer),
    {
        RingProducer { producer }
    }

    /// Hands `value` to the ring, or gives it back when the ring is full: offers it once and gives
    /// the ring's answer.
    pub fn try_push(&mut self, value: Resource) -> (r: Result<(), Resource>)
        ensures
            final(self).answered() == old(self).answered().push((value, r is Ok)),
            match r {
                Ok(_) => final(self).sent() == old(self).sent().push(value),
                Err(back) => back == value && final(self).sent() == old(self).sent(),
            },
    {
        let r: Result<(), Resource> = rtrb_push(&mut self.producer, value);
        proof {
            assert(self.answered().drop_last() =~= old(self).answered());
        }
        r
    }
}

/// The reading end.
#[verifier::reject_recursive_types(T)]
pub struct RingConsumer<T> {
    consumer: rtrb::Consumer<T>,
}

impl RingConsumer<StreamFailure> {
    /// Every answer of the ring so far.
    pub closed spec fn answered(&self) -> Seq<Option<StreamFailure>> {
        pops_answered(self.consumer)
    }

    /// Every failure that has been taken out of the ring so far.
    pub open spec fn taken(&self) -> Seq<StreamFailure> {
        failures_among(self.answered())
    }

    pub fn new(consumer: rtrb::Consumer<StreamFailure>) -> (c: Self)
        ensures
            c.answered() == pops_answered(consumer),
    {
        RingConsumer { consumer }
    }

    /// The oldest value in the ring, if there is one: asks the ring once and gives its answer.
    pub fn try_pop(&mut self) -> (r: Option<StreamFailure>)
        ensures
            final(self).answered() == old(self).answered().push(r),
            final(self).taken() == (match r {
                Some(value) => old(self).taken().push(value),
                None => old(self).taken(),
            }),
    {
        let r: Option<StreamFailure> = rtrb_pop(&mut self.consumer);
        proof {
            assert(self.answered().drop_last() =~= old(self).answered());
        }
        r
    }
}

} // verus!
