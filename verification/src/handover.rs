//! The handover of a stage's resource: two places, one playing and one standing by, a crossfade
//! from the first to the second, and a pen for the resource that is on its way out.
//!
//! A resource never goes away here. Whatever leaves a place is put in the pen, whatever is in the
//! pen stays until the return path has taken it, and while the pen is occupied nothing moves that
//! would need it.

use vstd::multiset::Multiset;
use vstd::prelude::*;

use crate::dsp;
use crate::dsp::SampleOp;
use crate::prepare::PrepareContext;
use crate::single::Single;

verus! {

/// How long a handover's crossfade takes.
pub const HANDOVER_CROSSFADE_MS: u64 = 20;

/// A crossfade under way.
#[derive(Debug, Clone, Copy, PartialEq, Eq, Structural)]
pub struct Crossfade {
    /// Samples still to fade.
    pub remaining: u32,
    /// Samples of the whole fade.
    pub total: u32,
    /// Samples for which only the outgoing side is heard, so that the incoming one has come
    /// through its own delay before it fades in.
    pub prime: u32,
}

impl Crossfade {
    pub open spec fn wf(self) -> bool {
        &&& 1 <= self.total
        &&& self.remaining <= self.total
        &&& self.remaining < self.total ==> self.prime == 0
    }

    /// The same crossfade `n` samples later.
    pub open spec fn later(self, n: int) -> Crossfade {
        let fading = n - self.prime;
        Crossfade {
            remaining: if fading <= 0 {
                self.remaining
            } else if fading < self.remaining {
                (self.remaining - fading) as u32
            } else {
                0
            },
            total: self.total,
            prime: if fading < 0 {
                (self.prime - n) as u32
            } else {
                0
            },
        }
    }

    /// How far the fade has come at sample `i` of the block that starts here, once it is primed.
    pub open spec fn progress_at(self, i: int) -> int {
        let done = self.total - self.remaining + (i - self.prime);
        if done < self.total {
            done
        } else {
            self.total as int
        }
    }

    /// Sample `i` of a block that starts here.
    pub open spec fn faded_at<A>(
        self,
        arith: A,
        outgoing: Seq<Single>,
        incoming: Seq<Single>,
        i: int,
        out: Single,
    ) -> bool where A: Fn(SampleOp) -> Single {
        if i < self.prime {
            out == outgoing[i]
        } else {
            call_ensures(
                arith,
                (SampleOp::Fade {
                    outgoing: outgoing[i],
                    incoming: incoming[i],
                    progress: self.progress_at(i) as u32,
                    total: self.total,
                },),
                out,
            )
        }
    }

    /// A whole block that starts here.
    pub open spec fn faded<A>(
        self,
        arith: A,
        outgoing: Seq<Single>,
        incoming: Seq<Single>,
        out: Seq<Single>,
    ) -> bool where A: Fn(SampleOp) -> Single {
        &&& out.len() == outgoing.len()
        &&& forall|i: int|
            0 <= i < out.len() ==> self.faded_at(arith, outgoing, incoming, i, #[trigger] out[i])
    }

    /// Blends one block and moves the crossfade past it.
    pub fn fade<A>(&mut self, outgoing: &Vec<Single>, incoming: &Vec<Single>, arith: A) -> (out: Vec<
        Single,
    >) where A: Fn(SampleOp) -> Single
        requires
            old(self).wf(),
            outgoing@.len() == incoming@.len(),
            dsp::computes(arith),
        ensures
            *final(self) == old(self).later(outgoing@.len() as int),
            final(self).wf(),
            old(self).faded(arith, outgoing@, incoming@, out@),
    {
        let mut out: Vec<Single> = Vec::new();
        let mut i: usize = 0;
        let total: u32 = self.total;
        while i < outgoing.len()
            invariant
                old(self).wf(),
                total == old(self).total,
                dsp::computes(arith),
                outgoing@.len() == incoming@.len(),
                i <= outgoing@.len(),
                out@.len() == i,
                *self == old(self).later(i as int),
                forall|j: int|
                    0 <= j < i ==> old(self).faded_at(
                        arith,
                        outgoing@,
                        incoming@,
                        j,
                        #[trigger] out@[j],
                    ),
            decreases outgoing@.len() - i,
        {
            if self.prime > 0 {
                self.prime = self.prime - 1;
                out.push(outgoing[i]);
            } else {
                let progress: u32 = total - self.remaining;
                let op = SampleOp::Fade {
                    outgoing: outgoing[i],
                    incoming: incoming[i],
                    progress,
                    total,
                };
                out.push(arith(op));
                if self.remaining > 0 {
                    self.remaining = self.remaining - 1;
                }
            }
            i += 1;
        }
        out
    }
}

/// Two blocks one after the other move a crossfade exactly as one block of both lengths does.
pub proof fn lemma_fade_does_not_depend_on_blocks(fade: Crossfade, first: int, second: int)
    requires
        fade.wf(),
        first >= 0,
        second >= 0,
    ensures
        fade.later(first).later(second) == fade.later(first + second),
        forall|i: int|
            fade.later(first).prime <= i && i >= 0 ==> #[trigger] fade.later(first).progress_at(i)
                == fade.progress_at(first + i),
{
}

/// A crossfade is over after its priming and its remaining samples, and not one sample sooner.
pub proof fn lemma_fade_ends_on_time(fade: Crossfade, n: int)
    requires
        fade.wf(),
        fade.remaining > 0,
        n >= 0,
    ensures
        fade.later(n).remaining == 0 <==> n >= fade.prime + fade.remaining,
{
}

/// A fresh crossfade starts at no progress, never goes back and never passes its total.
pub proof fn lemma_fade_progress_is_monotone(fade: Crossfade, i: int, j: int)
    requires
        fade.wf(),
        fade.remaining == fade.total,
        fade.prime <= i <= j,
    ensures
        fade.progress_at(fade.prime as int) == 0,
        0 <= fade.progress_at(i) <= fade.progress_at(j) <= fade.total,
        j >= fade.prime + fade.total ==> fade.progress_at(j) == fade.total,
{
}

/// Twenty milliseconds in samples, to the nearest sample and never none.
pub open spec fn crossfade_samples(hz: int) -> int {
    let nearest = (HANDOVER_CROSSFADE_MS * hz + 500) / 1000;
    if nearest < 1 {
        1
    } else {
        nearest
    }
}

pub fn crossfade_total_samples(hz: u32) -> (n: u32)
    ensures
        n == crossfade_samples(hz as int),
        n >= 1,
{
    assert(HANDOVER_CROSSFADE_MS * hz <= 20 * 0xFFFF_FFFF);
    let nearest: u64 = (HANDOVER_CROSSFADE_MS * hz as u64 + 500) / 1000;
    if nearest < 1 {
        1
    } else {
        nearest as u32
    }
}

/// A resource in the pen, with the figures it was built for.
pub struct Parked<S> {
    pub slot: Box<S>,
    pub ctx: PrepareContext,
}

pub struct Handover<S> {
    pub slots: [Option<Box<S>>; 2],
    pub active: usize,
    pub crossfade: Option<Crossfade>,
    pub crossfade_total_samples: u32,
    pub prepared_for: PrepareContext,
    pub retired: Option<Parked<S>>,
}

/// As many as there are: none or one.
pub open spec fn one_of<S>(slot: Option<Box<S>>) -> Multiset<S> {
    match slot {
        Some(s) => Multiset::singleton(*s),
        None => Multiset::empty(),
    }
}

impl<S> Handover<S> {
    pub open spec fn wf(&self) -> bool {
        &&& self.active < 2
        &&& self.crossfade_total_samples >= 1
        &&& self.crossfade matches Some(fade) ==> fade.wf() && fade.total
            == self.crossfade_total_samples
    }

    /// The place that plays, or that a crossfade leaves.
    pub open spec fn playing(&self) -> Option<Box<S>> {
        self.slots@[self.active as int]
    }

    /// The other place, which a crossfade enters.
    pub open spec fn standby(&self) -> Option<Box<S>> {
        self.slots@[1 - self.active]
    }

    pub open spec fn parked(&self) -> Option<Box<S>> {
        match self.retired {
            Some(p) => Some(p.slot),
            None => None,
        }
    }

    /// Every resource this stage is responsible for.
    pub open spec fn held(&self) -> Multiset<S> {
        one_of(self.playing()).add(one_of(self.standby())).add(one_of(self.parked()))
    }

    pub open spec fn same_frame(&self, other: &Handover<S>) -> bool {
        &&& self.crossfade_total_samples == other.crossfade_total_samples
        &&& self.prepared_for == other.prepared_for
    }

    pub fn new(prepared_for: PrepareContext) -> (h: Handover<S>)
        ensures
            h.wf(),
            h.prepared_for == prepared_for,
            h.crossfade_total_samples == crossfade_samples(prepared_for.sample_rate.hz as int),
            h.active == 0,
            h.playing() is None,
            h.standby() is None,
            h.retired is None,
            h.crossfade is None,
    {
        Handover {
            slots: [None, None],
            active: 0,
            crossfade: None,
            crossfade_total_samples: crossfade_total_samples(prepared_for.sample_rate.hz),
            prepared_for,
            retired: None,
        }
    }

    /// Puts `incoming` in the standby place and parks what stood there.
    fn displace(&mut self, incoming: Option<Box<S>>)
        requires
            old(self).wf(),
            old(self).retired is None,
        ensures
            final(self).same_frame(old(self)),
            final(self).active == old(self).active,
            final(self).crossfade == old(self).crossfade,
            final(self).playing() == old(self).playing(),
            final(self).standby() == incoming,
            final(self).retired == (match old(self).standby() {
                Some(slot) => Some(Parked { slot, ctx: old(self).prepared_for }),
                None => None,
            }),
    {
        let inactive: usize = 1 - self.active;
        let displaced = self.slots[inactive].take();
        if let Some(slot) = displaced {
            self.retired = Some(Parked { slot, ctx: self.prepared_for });
        }
        self.slots[inactive] = incoming;
    }

    /// Starts a crossfade of the full length from the playing place to the standby one.
    fn begin(&mut self, prime: u32)
        requires
            old(self).wf(),
        ensures
            final(self).wf(),
            *final(self) == (Handover {
                crossfade: Some(old(self).fresh_fade(prime)),
                ..*old(self)
            }),
    {
        self.crossfade = Some(
            Crossfade {
                remaining: self.crossfade_total_samples,
                total: self.crossfade_total_samples,
                prime,
            },
        );
    }

    pub open spec fn fresh_fade(&self, prime: u32) -> Crossfade {
        Crossfade {
            remaining: self.crossfade_total_samples,
            total: self.crossfade_total_samples,
            prime,
        }
    }

    /// What stood by is parked, `incoming` stands by instead, and a full crossfade to it starts.
    pub open spec fn handed_over(&self, after: &Handover<S>, incoming: Option<Box<S>>, prime: u32) -> bool {
        &&& after.same_frame(self)
        &&& after.active == self.active
        &&& after.playing() == self.playing()
        &&& after.standby() == incoming
        &&& after.retired == (match self.standby() {
            Some(slot) => Some(Parked { slot, ctx: self.prepared_for }),
            None => None,
        })
        &&& after.crossfade == Some(self.fresh_fade(prime))
    }

    /// Begins a handover to `slot`, or hands `slot` back untouched while the pen is occupied.
    pub fn install(&mut self, slot: Box<S>, prime: u32) -> (refused: Option<Box<S>>)
        requires
            old(self).wf(),
        ensures
            final(self).wf(),
            old(self).retired is Some ==> refused == Some(slot) && *final(self) == *old(self),
            old(self).retired is None ==> refused is None && old(self).handed_over(
                final(self),
                Some(slot),
                prime,
            ),
            final(self).held().add(one_of(refused)) == old(self).held().insert(*slot),
    {
        if self.retired.is_some() {
            proof {
                assert(self.held().add(one_of(Some(slot))) =~= self.held().insert(*slot));
            }
            return Some(slot);
        }
        self.displace(Some(slot));
        self.begin(prime);
        proof {
            assert(self.held().add(one_of(None)) =~= old(self).held().insert(*slot));
        }
        None
    }

    /// Begins a handover to nothing; while the pen is occupied it does not.
    pub fn unload(&mut self)
        requires
            old(self).wf(),
        ensures
            final(self).wf(),
            old(self).retired is Some ==> *final(self) == *old(self),
            old(self).retired is None ==> old(self).handed_over(final(self), None, 0),
            final(self).held() == old(self).held(),
    {
        if self.retired.is_some() {
            return;
        }
        self.displace(None);
        self.begin(0);
        proof {
            assert(self.held() =~= old(self).held());
        }
    }

    /// The crossfade is over: the standby place plays and what played is parked.
    pub open spec fn finalized(&self, after: &Handover<S>) -> bool {
        &&& after.same_frame(self)
        &&& after.active == 1 - self.active
        &&& after.playing() == self.standby()
        &&& after.standby() is None
        &&& after.retired == (match self.playing() {
            Some(slot) => Some(Parked { slot, ctx: self.prepared_for }),
            None => None,
        })
        &&& after.crossfade is None
    }

    /// Completes the handover if the pen is free.
    pub fn try_finalize(&mut self) -> (done: bool)
        requires
            old(self).wf(),
        ensures
            final(self).wf(),
            done == (old(self).retired is None),
            !done ==> *final(self) == *old(self),
            done ==> old(self).finalized(final(self)),
            final(self).held() == old(self).held(),
    {
        if self.retired.is_some() {
            return false;
        }
        let outgoing: usize = self.active;
        let leaving = self.slots[outgoing].take();
        if let Some(slot) = leaving {
            self.retired = Some(Parked { slot, ctx: self.prepared_for });
        }
        self.active = 1 - outgoing;
        self.crossfade = None;
        proof {
            assert(self.held() =~= old(self).held());
        }
        true
    }

    /// Ends a block of which `fade` is what the crossfade has become: the handover completes once
    /// nothing remains to fade and the pen is free, and otherwise the crossfade stays where it is.
    pub fn commit(&mut self, fade: Crossfade)
        requires
            old(self).wf(),
            fade.wf(),
            fade.total == old(self).crossfade_total_samples,
        ensures
            final(self).wf(),
            old(self).committed(final(self), fade),
            final(self).held() == old(self).held(),
    {
        if fade.remaining == 0 {
            if !self.try_finalize() {
                self.crossfade = Some(fade);
            }
        } else {
            self.crossfade = Some(fade);
        }
    }

    pub open spec fn committed(&self, after: &Handover<S>, fade: Crossfade) -> bool {
        if fade.remaining == 0 && self.retired is None {
            self.finalized(after)
        } else {
            *after == (Handover { crossfade: Some(fade), ..*self })
        }
    }
}

/// Until the incoming side has come through its own delay only the outgoing one is heard; from
/// there on every sample is a step of the fade from the outgoing sample to the incoming one, as far
/// along as the samples faded so far; and from the end of the fade on it is the fade's last step.
pub proof fn lemma_a_fade_goes_from_the_outgoing_to_the_incoming<A>(
    fade: Crossfade,
    arith: A,
    outgoing: Seq<Single>,
    incoming: Seq<Single>,
    out: Seq<Single>,
    i: int,
) where A: Fn(SampleOp) -> Single
    requires
        fade.wf(),
        fade.faded(arith, outgoing, incoming, out),
        0 <= i < out.len(),
    ensures
        out.len() == outgoing.len(),
        i < fade.prime ==> out[i] == outgoing[i],
        fade.prime <= i < fade.prime + fade.remaining ==> call_ensures(
            arith,
            (SampleOp::Fade {
                outgoing: outgoing[i],
                incoming: incoming[i],
                progress: (fade.total - fade.remaining + i - fade.prime) as u32,
                total: fade.total,
            },),
            out[i],
        ),
        i >= fade.prime + fade.remaining ==> call_ensures(
            arith,
            (SampleOp::Fade {
                outgoing: outgoing[i],
                incoming: incoming[i],
                progress: fade.total,
                total: fade.total,
            },),
            out[i],
        ),
{
    assert(fade.faded_at(arith, outgoing, incoming, i, out[i]));
}

/// Where the shell's fade is the outgoing sample at its start and the incoming one at its end, a
/// handover leaves the outgoing signal without a jump and arrives at the incoming one exactly.
pub proof fn lemma_a_fade_starts_and_ends_without_a_jump<A>(
    fade: Crossfade,
    arith: A,
    outgoing: Seq<Single>,
    incoming: Seq<Single>,
    out: Seq<Single>,
    i: int,
) where A: Fn(SampleOp) -> Single
    requires
        fade.wf(),
        fade.faded(arith, outgoing, incoming, out),
        0 <= i < out.len(),
        forall|a: Single, b: Single, total: u32, r: Single| #[trigger]
            call_ensures(
                arith,
                (SampleOp::Fade { outgoing: a, incoming: b, progress: 0, total },),
                r,
            ) ==> r == a,
        forall|a: Single, b: Single, total: u32, r: Single| #[trigger]
            call_ensures(
                arith,
                (SampleOp::Fade { outgoing: a, incoming: b, progress: total, total },),
                r,
            ) ==> r == b,
    ensures
        fade.remaining == fade.total && i <= fade.prime ==> out[i] == outgoing[i],
        i >= fade.prime + fade.remaining ==> out[i] == incoming[i],
{
    assert(fade.faded_at(arith, outgoing, incoming, i, out[i]));
}

/// A handover's crossfade lasts twenty milliseconds, to the nearest sample, and one sample where
/// that would be none.
pub proof fn lemma_a_crossfade_lasts_twenty_milliseconds(hz: int)
    requires
        hz >= 0,
    ensures
        crossfade_samples(hz) >= 1,
        hz >= 25 ==> -500 <= 1000 * crossfade_samples(hz) - 20 * hz <= 500,
        hz < 25 ==> crossfade_samples(hz) == 1,
{
}

/// What is handed over stands by and is faded in over the full length once it has come through its
/// own delay: it alone is left to hear exactly then, and not one sample sooner. Meanwhile what
/// played still plays, and what stood by before is in the pen with the figures of this chain.
pub proof fn lemma_an_arrival_is_faded_in_over_the_full_length<S>(
    before: &Handover<S>,
    after: &Handover<S>,
    incoming: Option<Box<S>>,
    prime: u32,
)
    requires
        before.wf(),
        before.handed_over(after, incoming, prime),
    ensures
        after.crossfade is Some,
        forall|n: int|
            n >= 0 ==> ((#[trigger] (after.crossfade->0).later(n)).remaining == 0 <==> n >= prime
                + before.crossfade_total_samples),
        after.slots@[before.active as int] == before.slots@[before.active as int],
        after.slots@[1 - before.active] == incoming,
        after.active == before.active,
        before.slots@[1 - before.active] matches Some(slot) ==> (after.retired matches Some(parked)
            && parked.slot == slot && parked.ctx == before.prepared_for),
        before.slots@[1 - before.active] is None ==> after.retired is None,
        after.prepared_for == before.prepared_for,
        after.crossfade_total_samples == before.crossfade_total_samples,
{
}

/// A block ends with the handover complete exactly where nothing is left to fade and the pen is
/// free: then the other place plays, alone, and what played is in the pen with the figures of this
/// chain. Otherwise nothing has moved but the crossfade.
pub proof fn lemma_a_block_completes_the_handover_or_waits<S>(
    before: &Handover<S>,
    after: &Handover<S>,
    fade: Crossfade,
)
    requires
        before.wf(),
        before.committed(after, fade),
    ensures
        ({
            let done = fade.remaining == 0 && before.retired is None;
            let from = before.active as int;
            &&& done ==> {
                &&& after.active == 1 - from
                &&& after.crossfade is None
                &&& after.slots@[1 - from] == before.slots@[1 - from]
                &&& after.slots@[from] is None
                &&& before.slots@[from] matches Some(slot) ==> (after.retired matches Some(parked)
                    && parked.slot == slot && parked.ctx == before.prepared_for)
                &&& before.slots@[from] is None ==> after.retired is None
            }
            &&& !done ==> {
                &&& after.active == before.active
                &&& after.slots == before.slots
                &&& after.retired == before.retired
                &&& after.crossfade == Some(fade)
            }
            &&& after.prepared_for == before.prepared_for
            &&& after.crossfade_total_samples == before.crossfade_total_samples
        }),
{
}

} // verus!
