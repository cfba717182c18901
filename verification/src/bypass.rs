//! The click-free bypass that every stage shares: what the stage made is blended with what came
//! in, by a mix that glides toward its target sample by sample.

use vstd::prelude::*;

use crate::dsp;
use crate::dsp::SampleOp;
use crate::single::Single;
use crate::stage_io::StageIo;

verus! {

/// `mixes` is a mix and its successors, each one glide step from the one before.
pub open spec fn glides<A>(arith: A, target: Single, mixes: Seq<Single>) -> bool where
    A: Fn(SampleOp) -> Single,
 {
    forall|i: int|
        0 <= i < mixes.len() - 1 ==> call_ensures(
            arith,
            (SampleOp::Glide { mix: #[trigger] mixes[i], target },),
            mixes[i + 1],
        )
}

/// Sample for sample, `out` is `dry` and `wet` blended by the mix that has just moved one step.
pub open spec fn blended_by<A>(
    arith: A,
    dry: Seq<Single>,
    wet: Seq<Single>,
    out: Seq<Single>,
    mixes: Seq<Single>,
) -> bool where A: Fn(SampleOp) -> Single {
    &&& out.len() == wet.len()
    &&& forall|i: int|
        0 <= i < out.len() ==> call_ensures(
            arith,
            (SampleOp::Blend { dry: dry[i], wet: wet[i], mix: mixes[i + 1] },),
            #[trigger] out[i],
        )
}

/// One channel blended with a mix that starts at `start` and is `end` when the block is done.
pub open spec fn channel_blended<A>(
    arith: A,
    start: Single,
    target: Single,
    dry: Seq<Single>,
    wet: Seq<Single>,
    out: Seq<Single>,
    end: Single,
) -> bool where A: Fn(SampleOp) -> Single {
    exists|mixes: Seq<Single>|
        {
            &&& mixes.len() == wet.len() + 1
            &&& mixes[0] == start
            &&& mixes.last() == end
            &&& glides(arith, target, mixes)
            &&& #[trigger] blended_by(arith, dry, wet, out, mixes)
        }
}

/// Every channel blended with a mix that starts at `start` and ends at that channel's `ends`.
pub open spec fn blended_to<A>(
    arith: A,
    start: Single,
    target: Single,
    dry: Seq<Seq<Single>>,
    wet: Seq<Seq<Single>>,
    out: Seq<Seq<Single>>,
    ends: Seq<Single>,
) -> bool where A: Fn(SampleOp) -> Single {
    &&& out.len() == wet.len()
    &&& ends.len() == wet.len()
    &&& forall|ch: int|
        0 <= ch < ends.len() ==> channel_blended(
            arith,
            start,
            target,
            dry[ch],
            wet[ch],
            out[ch],
            #[trigger] ends[ch],
        )
}

/// Every channel blended with a mix that starts at `start`; `end` is what the last channel's mix
/// ends at.
pub open spec fn blended<A>(
    arith: A,
    start: Single,
    target: Single,
    dry: Seq<Seq<Single>>,
    wet: Seq<Seq<Single>>,
    out: Seq<Seq<Single>>,
    end: Single,
) -> bool where A: Fn(SampleOp) -> Single {
    exists|ends: Seq<Single>| #[trigger]
        blended_to(arith, start, target, dry, wet, out, ends) && ends.last() == end
}

fn blend_channel<A>(
    dry: &Vec<Single>,
    wet: &Vec<Single>,
    start: Single,
    target: Single,
    arith: A,
) -> (r: (Vec<Single>, Single)) where A: Fn(SampleOp) -> Single
    requires
        dry@.len() == wet@.len(),
        dsp::computes(arith),
    ensures
        r.0@.len() == wet@.len(),
        channel_blended(arith, start, target, dry@, wet@, r.0@, r.1),
{
    let mut out: Vec<Single> = Vec::new();
    let mut mix: Single = start;
    let ghost mut mixes: Seq<Single> = seq![start];
    let mut i: usize = 0;
    while i < wet.len()
        invariant
            dry@.len() == wet@.len(),
            dsp::computes(arith),
            i <= wet@.len(),
            out@.len() == i,
            mixes.len() == i + 1,
            mixes[0] == start,
            mixes.last() == mix,
            glides(arith, target, mixes),
            forall|j: int|
                0 <= j < i ==> call_ensures(
                    arith,
                    (SampleOp::Blend { dry: dry@[j], wet: wet@[j], mix: mixes[j + 1] },),
                    #[trigger] out@[j],
                ),
        decreases wet@.len() - i,
    {
        let next: Single = arith(SampleOp::Glide { mix, target });
        let sample: Single = arith(SampleOp::Blend { dry: dry[i], wet: wet[i], mix: next });
        out.push(sample);
        proof {
            let grown = mixes.push(next);
            assert forall|j: int| 0 <= j < grown.len() - 1 implies call_ensures(
                arith,
                (SampleOp::Glide { mix: #[trigger] grown[j], target },),
                grown[j + 1],
            ) by {
                if j < mixes.len() - 1 {
                    assert(grown[j] == mixes[j] && grown[j + 1] == mixes[j + 1]);
                }
            }
            mixes = grown;
        }
        mix = next;
        i += 1;
    }
    proof {
        assert(blended_by(arith, dry@, wet@, out@, mixes));
    }
    (out, mix)
}

/// Blends the block with `dry`; gives the mix the block ends on.
pub fn blend<A>(
    io: &mut StageIo,
    dry: &Vec<Vec<Single>>,
    start: Single,
    target: Single,
    arith: A,
) -> (end: Single) where A: Fn(SampleOp) -> Single + Copy
    requires
        old(io).wf(),
        old(io).channels@.len() > 0,
        dry@.len() == old(io).channels@.len(),
        forall|ch: int| 0 <= ch < dry@.len() ==> (#[trigger] dry@[ch])@.len() == old(io).frames,
        dsp::computes(arith),
    ensures
        final(io).wf(),
        final(io).same_shape(old(io)),
        blended(
            arith,
            start,
            target,
            Seq::new(dry@.len(), |ch: int| dry@[ch]@),
            old(io).samples(),
            final(io).samples(),
            end,
        ),
{
    let ghost dries = Seq::new(dry@.len(), |ch: int| dry@[ch]@);
    let ghost wets = io.samples();
    let ghost mut ends: Seq<Single> = Seq::empty();
    let mut end: Single = start;
    let mut ch: usize = 0;
    while ch < io.channels.len()
        invariant
            io.wf(),
            io.same_shape(old(io)),
            dry@.len() == io.channels@.len(),
            forall|c: int| 0 <= c < dry@.len() ==> (#[trigger] dry@[c])@.len() == io.frames,
            dsp::computes(arith),
            ch <= io.channels@.len(),
            dries == Seq::new(dry@.len(), |c: int| dry@[c]@),
            wets == old(io).samples(),
            ends.len() == ch,
            ch > 0 ==> ends.last() == end,
            forall|c: int|
                ch <= c < io.channels@.len() ==> io.channels@[c] == old(io).channels@[c],
            forall|c: int|
                0 <= c < ch ==> channel_blended(
                    arith,
                    start,
                    target,
                    dries[c],
                    wets[c],
                    io.channels@[c]@,
                    #[trigger] ends[c],
                ),
        decreases io.channels@.len() - ch,
    {
        let (samples, last) = blend_channel(&dry[ch], &io.channels[ch], start, target, arith);
        io.put(ch, samples);
        proof {
            ends = ends.push(last);
        }
        end = last;
        ch += 1;
    }
    proof {
        assert(blended_to(arith, start, target, dries, wets, io.samples(), ends));
    }
    end
}

/// What the shell's blend does at its two ends: a mix that has arrived stays, at zero the blend is
/// what came in, and at one it is what the stage made.
pub open spec fn settles<A>(arith: A) -> bool where A: Fn(SampleOp) -> Single {
    &&& forall|r: Single| #[trigger]
        call_ensures(
            arith,
            (SampleOp::Glide { mix: Single::zero(), target: Single::zero() },),
            r,
        ) ==> r == Single::zero()
    &&& forall|r: Single| #[trigger]
        call_ensures(
            arith,
            (SampleOp::Glide { mix: Single::one(), target: Single::one() },),
            r,
        ) ==> r == Single::one()
    &&& forall|d: Single, w: Single, r: Single| #[trigger]
        call_ensures(arith, (SampleOp::Blend { dry: d, wet: w, mix: Single::zero() },), r) ==> r
            == d
    &&& forall|d: Single, w: Single, r: Single| #[trigger]
        call_ensures(arith, (SampleOp::Blend { dry: d, wet: w, mix: Single::one() },), r) ==> r
            == w
}

proof fn lemma_a_mix_that_has_arrived_stays<A>(arith: A, on: bool, mixes: Seq<Single>, i: int) where
    A: Fn(SampleOp) -> Single,

    requires
        settles(arith),
        glides(arith, Single::switch(on), mixes),
        0 <= i < mixes.len(),
        mixes[0] == Single::switch(on),
    ensures
        mixes[i] == Single::switch(on),
    decreases i,
{
    if i > 0 {
        lemma_a_mix_that_has_arrived_stays(arith, on, mixes, i - 1);
        assert(call_ensures(
            arith,
            (SampleOp::Glide { mix: mixes[i - 1], target: Single::switch(on) },),
            mixes[i - 1 + 1],
        ));
    }
}

/// A bypass that has arrived stays there: off, every channel is exactly what came in, and on,
/// exactly what the stage made.
pub proof fn lemma_a_settled_bypass_gives_one_side<A>(
    arith: A,
    on: bool,
    dry: Seq<Seq<Single>>,
    wet: Seq<Seq<Single>>,
    out: Seq<Seq<Single>>,
    end: Single,
) where A: Fn(SampleOp) -> Single
    requires
        settles(arith),
        wet.len() > 0,
        dry.len() == wet.len(),
        forall|ch: int|
            0 <= ch < wet.len() ==> (#[trigger] dry[ch]).len() == wet[ch].len(),
        blended(arith, Single::switch(on), Single::switch(on), dry, wet, out, end),
    ensures
        out == (if on {
            wet
        } else {
            dry
        }),
        end == Single::switch(on),
{
    let start = Single::switch(on);
    let ends = choose|ends: Seq<Single>| #[trigger]
        blended_to(arith, start, start, dry, wet, out, ends) && ends.last() == end;
    assert forall|ch: int| 0 <= ch < wet.len() implies #[trigger] out[ch] == (if on {
        wet[ch]
    } else {
        dry[ch]
    }) && ends[ch] == start by {
        assert(channel_blended(arith, start, start, dry[ch], wet[ch], out[ch], ends[ch]));
        assert(dry[ch].len() == wet[ch].len());
        let mixes = choose|mixes: Seq<Single>|
            {
                &&& mixes.len() == wet[ch].len() + 1
                &&& mixes[0] == start
                &&& mixes.last() == ends[ch]
                &&& glides(arith, start, mixes)
                &&& #[trigger] blended_by(arith, dry[ch], wet[ch], out[ch], mixes)
            };
        lemma_a_mix_that_has_arrived_stays(arith, on, mixes, mixes.len() - 1);
        assert forall|i: int| 0 <= i < wet[ch].len() implies #[trigger] out[ch][i] == (if on {
            wet[ch][i]
        } else {
            dry[ch][i]
        }) by {
            lemma_a_mix_that_has_arrived_stays(arith, on, mixes, i + 1);
            assert(call_ensures(
                arith,
                (SampleOp::Blend { dry: dry[ch][i], wet: wet[ch][i], mix: mixes[i + 1] },),
                out[ch][i],
            ));
        }
        assert(out[ch] =~= (if on {
            wet[ch]
        } else {
            dry[ch]
        }));
    }
    assert(out =~= (if on {
        wet
    } else {
        dry
    }));
}

/// Every channel of a block starts from the same mix, and the mix has moved one step toward its
/// target before the first sample is blended; after a block of one sample that is the mix the block
/// ends on.
pub proof fn lemma_the_mix_moves_before_the_sample<A>(
    arith: A,
    start: Single,
    target: Single,
    dry: Seq<Seq<Single>>,
    wet: Seq<Seq<Single>>,
    out: Seq<Seq<Single>>,
    end: Single,
    ch: int,
) where A: Fn(SampleOp) -> Single
    requires
        blended(arith, start, target, dry, wet, out, end),
        0 <= ch < wet.len(),
        wet[ch].len() > 0,
    ensures
        out.len() == wet.len(),
        out[ch].len() == wet[ch].len(),
        exists|mix: Single|
            {
                &&& call_ensures(arith, (SampleOp::Glide { mix: start, target },), mix)
                &&& #[trigger] call_ensures(
                    arith,
                    (SampleOp::Blend { dry: dry[ch][0], wet: wet[ch][0], mix },),
                    out[ch][0],
                )
                &&& ch == wet.len() - 1 && wet[ch].len() == 1 ==> mix == end
            },
{
    let ends = choose|ends: Seq<Single>| #[trigger]
        blended_to(arith, start, target, dry, wet, out, ends) && ends.last() == end;
    assert(channel_blended(arith, start, target, dry[ch], wet[ch], out[ch], ends[ch]));
    let mixes = choose|mixes: Seq<Single>|
        {
            &&& mixes.len() == wet[ch].len() + 1
            &&& mixes[0] == start
            &&& mixes.last() == ends[ch]
            &&& glides(arith, target, mixes)
            &&& #[trigger] blended_by(arith, dry[ch], wet[ch], out[ch], mixes)
        };
    assert(call_ensures(arith, (SampleOp::Glide { mix: mixes[0], target },), mixes[1]));
    let mix = mixes[1];
    assert(call_ensures(
        arith,
        (SampleOp::Blend { dry: dry[ch][0], wet: wet[ch][0], mix },),
        out[ch][0],
    ));
}

/// A block is blended as the same samples in two blocks are: the mix of the second goes on from
/// where the first left it.
pub proof fn lemma_blending_does_not_depend_on_the_cutting<A>(
    arith: A,
    start: Single,
    target: Single,
    dry: Seq<Single>,
    wet: Seq<Single>,
    out: Seq<Single>,
    end: Single,
    n: int,
) where A: Fn(SampleOp) -> Single
    requires
        channel_blended(arith, start, target, dry, wet, out, end),
        0 <= n <= wet.len(),
        dry.len() == wet.len(),
    ensures
        exists|between: Single| #[trigger]
            channel_blended(
                arith,
                start,
                target,
                dry.take(n),
                wet.take(n),
                out.take(n),
                between,
            ) && channel_blended(
                arith,
                between,
                target,
                dry.skip(n),
                wet.skip(n),
                out.skip(n),
                end,
            ),
{
    let mixes = choose|mixes: Seq<Single>|
        {
            &&& mixes.len() == wet.len() + 1
            &&& mixes[0] == start
            &&& mixes.last() == end
            &&& glides(arith, target, mixes)
            &&& #[trigger] blended_by(arith, dry, wet, out, mixes)
        };
    let (first, second) = (mixes.take(n + 1), mixes.skip(n));
    assert forall|i: int| 0 <= i < first.len() - 1 implies call_ensures(
        arith,
        (SampleOp::Glide { mix: #[trigger] first[i], target },),
        first[i + 1],
    ) by {
        assert(first[i] == mixes[i] && first[i + 1] == mixes[i + 1]);
    }
    assert forall|i: int| 0 <= i < second.len() - 1 implies call_ensures(
        arith,
        (SampleOp::Glide { mix: #[trigger] second[i], target },),
        second[i + 1],
    ) by {
        assert(second[i] == mixes[n + i] && second[i + 1] == mixes[n + i + 1]);
    }
    assert(blended_by(arith, dry.take(n), wet.take(n), out.take(n), first)) by {
        assert forall|i: int| 0 <= i < n implies call_ensures(
            arith,
            (SampleOp::Blend { dry: dry.take(n)[i], wet: wet.take(n)[i], mix: first[i + 1] },),
            #[trigger] out.take(n)[i],
        ) by {
            assert(out.take(n)[i] == out[i]);
        }
    }
    assert(blended_by(arith, dry.skip(n), wet.skip(n), out.skip(n), second)) by {
        assert forall|i: int| 0 <= i < out.len() - n implies call_ensures(
            arith,
            (SampleOp::Blend { dry: dry.skip(n)[i], wet: wet.skip(n)[i], mix: second[i + 1] },),
            #[trigger] out.skip(n)[i],
        ) by {
            assert(out.skip(n)[i] == out[n + i]);
        }
    }
    assert(channel_blended(
        arith,
        start,
        target,
        dry.take(n),
        wet.take(n),
        out.take(n),
        mixes[n],
    ));
    assert(channel_blended(
        arith,
        mixes[n],
        target,
        dry.skip(n),
        wet.skip(n),
        out.skip(n),
        end,
    ));
}

} // verus!
