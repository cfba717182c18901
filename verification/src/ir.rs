//! The impulse response stage: a loaded impulse response, the glitch-free handover to its
//! successor, the two cut filters and the level behind it, and the bypass.

use vstd::multiset::Multiset;
use vstd::prelude::*;

use crate::bypass;
use crate::command::RetireSink;
use crate::descriptor::{continuous_default, stepped_default_on};
use crate::dsp;
use crate::dsp::{BlockOp, Convolve, Rack, Run, SampleOp};
use crate::handover;
use crate::handover::{Crossfade, Handover, Parked};
use crate::identity;
use crate::param;
use crate::param::{ParamChange, ParamId, TelemetryEntry};
use crate::prepare::PrepareContext;
use crate::registry;
use crate::resource::{Resource, ResourceKind};
use crate::ring;
use crate::single::Single;
use crate::stage_io::StageIo;

verus! {

/// A loaded impulse response as the shell describes it.
#[derive(Debug, Clone, Copy, PartialEq, Eq, Structural)]
pub struct IrInfo {
    /// What the shell finds the impulse response by.
    pub handle: u64,
    /// One or two.
    pub channel_count: usize,
    pub len_samples: usize,
}

impl IrInfo {
    pub open spec fn wf(self) -> bool {
        1 <= self.channel_count <= 2
    }
}

/// One instance of an impulse response, with a convolution state for every channel of one chain.
pub struct IrSlot {
    pub ir: IrInfo,
    pub states: usize,
}

impl IrSlot {
    pub open spec fn wf(&self, channels: nat) -> bool {
        self.ir.wf() && self.states == channels
    }

    pub fn new(ir: IrInfo, channel_count: usize) -> (s: IrSlot)
        requires
            ir.wf(),
        ensures
            s.wf(channel_count as nat),
            s.ir == ir,
    {
        IrSlot { ir, states: channel_count }
    }

    pub fn channel_count(&self) -> (n: usize)
        ensures
            n == self.ir.channel_count,
    {
        self.ir.channel_count
    }

    pub fn tail_samples(&self) -> (n: u32)
        ensures
            n == self.ir.len_samples as u32,
    {
        self.ir.len_samples as u32
    }
}

/// Which of the produced channels a physical channel hears: its own, or the last there is.
pub open spec fn wet_index(ch: int, produced: int) -> int {
    if ch < produced {
        ch
    } else {
        produced - 1
    }
}

pub fn wet_channel_index(ch: usize, produced_channels: usize) -> (i: usize)
    requires
        produced_channels > 0,
    ensures
        i == wet_index(ch as int, produced_channels as int),
        i < produced_channels,
{
    if ch < produced_channels {
        ch
    } else {
        produced_channels - 1
    }
}

/// How many channels a place produces: an empty one passes its one input on.
pub open spec fn produced_by(place: Option<Box<IrSlot>>) -> int {
    match place {
        Some(slot) => slot.ir.channel_count as int,
        None => 1,
    }
}

/// What a physical channel hears of a place's two outputs.
pub open spec fn picked(
    ch: int,
    produced: int,
    first: Seq<Single>,
    second: Seq<Single>,
) -> Seq<Single> {
    if wet_index(ch, produced) == 0 {
        first
    } else {
        second
    }
}

/// What a place makes of an input, with the state of channel `state`, and all that runs for it: an
/// impulse response is convolved with it, once, and an empty place passes it on.
pub open spec fn place_gives(
    place: Option<Box<IrSlot>>,
    state: usize,
    input: Seq<Single>,
    first: Seq<Single>,
    second: Seq<Single>,
    runs: Seq<Run>,
) -> bool {
    &&& first.len() == input.len()
    &&& second.len() == input.len()
    &&& match place {
        Some(slot) => runs == seq![
            Run::Convolved {
                by: Convolve { handle: slot.ir.handle, channel: state },
                input,
                first,
                second,
            },
        ],
        None => first == input && runs == Seq::<Run>::empty(),
    }
}

/// What a physical channel hears of one place.
pub open spec fn place_heard(
    place: Option<Box<IrSlot>>,
    ch: usize,
    input: Seq<Single>,
    out: Seq<Single>,
    runs: Seq<Run>,
) -> bool {
    exists|first: Seq<Single>, second: Seq<Single>| #[trigger]
        place_gives(place, ch, input, first, second, runs) && out == picked(
            ch as int,
            produced_by(place),
            first,
            second,
        )
}

/// Both sides of a crossfade on an independent channel, the outgoing one first, blended.
pub open spec fn both_heard<A>(
    stage: &IrStage,
    fade: Crossfade,
    ch: usize,
    arith: A,
    dry: Seq<Single>,
    out: Seq<Single>,
    runs: Seq<Run>,
    outgoing: (Seq<Single>, Seq<Run>),
    incoming: (Seq<Single>, Seq<Run>),
) -> bool where A: Fn(SampleOp) -> Single {
    &&& place_heard(stage.handover.playing(), ch, dry, outgoing.0, outgoing.1)
    &&& place_heard(stage.handover.standby(), ch, dry, incoming.0, incoming.1)
    &&& runs == outgoing.1 + incoming.1
    &&& fade.faded(arith, outgoing.0, incoming.0, out)
}

/// What an independent channel sounds like before the filters, and all that ran for it: its own
/// input through the playing impulse response; or through the incoming one, where a crossfade has
/// run out and only waits for the pen; or through both, blended. No other channel's state is
/// touched.
pub open spec fn channel_heard<A>(
    stage: &IrStage,
    ch: usize,
    arith: A,
    dry: Seq<Single>,
    out: Seq<Single>,
    runs: Seq<Run>,
) -> bool where A: Fn(SampleOp) -> Single {
    match stage.handover.crossfade {
        None => place_heard(stage.handover.playing(), ch, dry, out, runs),
        Some(fade) => if fade.remaining == 0 {
            place_heard(stage.handover.standby(), ch, dry, out, runs)
        } else {
            exists|outgoing: (Seq<Single>, Seq<Run>), incoming: (Seq<Single>, Seq<Run>)| #[trigger]
                both_heard(stage, fade, ch, arith, dry, out, runs, outgoing, incoming)
        },
    }
}

/// One place heard on linked channels: channel 0's input is convolved once, and every channel
/// hears its share; an empty place leaves every channel as it is and runs nothing.
pub open spec fn shared_heard(
    place: Option<Box<IrSlot>>,
    dry: Seq<Seq<Single>>,
    outs: Seq<Seq<Single>>,
    runs: Seq<Run>,
) -> bool {
    match place {
        None => outs == dry && runs == Seq::<Run>::empty(),
        Some(slot) => exists|first: Seq<Single>, second: Seq<Single>| #[trigger]
            place_gives(place, 0, dry[0], first, second, runs) && spread(
                produced_by(place),
                first,
                second,
                dry.len(),
                outs,
            ),
    }
}

/// Every channel carries its share of two outputs.
pub open spec fn spread(
    produced: int,
    first: Seq<Single>,
    second: Seq<Single>,
    count: nat,
    outs: Seq<Seq<Single>>,
) -> bool {
    &&& outs.len() == count
    &&& forall|ch: int|
        0 <= ch < outs.len() ==> #[trigger] outs[ch] == picked(ch, produced, first, second)
}

/// Both sides of a crossfade on linked channels, the outgoing one first, blended channel by channel
/// from the same point of the crossfade.
pub open spec fn both_shared<A>(
    stage: &IrStage,
    fade: Crossfade,
    arith: A,
    dry: Seq<Seq<Single>>,
    outs: Seq<Seq<Single>>,
    runs: Seq<Run>,
    outgoing: (Seq<Single>, Seq<Single>, Seq<Run>),
    incoming: (Seq<Single>, Seq<Single>, Seq<Run>),
) -> bool where A: Fn(SampleOp) -> Single {
    &&& place_gives(
        stage.handover.playing(),
        0,
        dry[0],
        outgoing.0,
        outgoing.1,
        outgoing.2,
    )
    &&& place_gives(
        stage.handover.standby(),
        0,
        dry[0],
        incoming.0,
        incoming.1,
        incoming.2,
    )
    &&& runs == outgoing.2 + incoming.2
    &&& outs.len() == dry.len()
    &&& forall|ch: int|
        0 <= ch < outs.len() ==> fade.faded(
            arith,
            picked(ch, produced_by(stage.handover.playing()), outgoing.0, outgoing.1),
            picked(ch, produced_by(stage.handover.standby()), incoming.0, incoming.1),
            #[trigger] outs[ch],
        )
}

/// What linked channels sound like before the filters, and all that ran for it.
pub open spec fn linked_heard<A>(
    stage: &IrStage,
    arith: A,
    dry: Seq<Seq<Single>>,
    outs: Seq<Seq<Single>>,
    runs: Seq<Run>,
) -> bool where A: Fn(SampleOp) -> Single {
    match stage.handover.crossfade {
        None => shared_heard(stage.handover.playing(), dry, outs, runs),
        Some(fade) => if fade.remaining == 0 {
            shared_heard(stage.handover.standby(), dry, outs, runs)
        } else {
            exists|
                outgoing: (Seq<Single>, Seq<Single>, Seq<Run>),
                incoming: (Seq<Single>, Seq<Single>, Seq<Run>),
            | #[trigger]
                both_shared(stage, fade, arith, dry, outs, runs, outgoing, incoming)
        },
    }
}

/// Independent channels, one after the other, each by its part of the runs.
pub open spec fn each_heard<A>(
    stage: &IrStage,
    arith: A,
    dry: Seq<Seq<Single>>,
    outs: Seq<Seq<Single>>,
    parts: Seq<Seq<Run>>,
) -> bool where A: Fn(SampleOp) -> Single {
    &&& outs.len() == dry.len()
    &&& parts.len() == dry.len()
    &&& forall|c: int|
        0 <= c < outs.len() ==> channel_heard(
            stage,
            c as usize,
            arith,
            dry[c],
            #[trigger] outs[c],
            parts[c],
        )
}

pub struct IrStage {
    pub handover: Handover<IrSlot>,
    pub enabled: bool,
    pub independent: bool,
    pub mix: Single,
    pub mix_target: Single,
    pub level_db: Single,
    pub low_cut_enabled: bool,
    pub low_cut_freq_hz: Single,
    pub high_cut_enabled: bool,
    pub high_cut_freq_hz: Single,
}

impl IrStage {
    /// There is something to hear: an impulse response plays, or one is being faded in.
    pub open spec fn engaged(&self) -> bool {
        ||| self.handover.playing() is Some
        ||| (self.handover.crossfade is Some && self.handover.standby() is Some)
    }

    /// The bypass heads for the wet side exactly while the stage is on and there is something to
    /// hear.
    pub open spec fn mix_target_spec(&self) -> Single {
        Single::switch(self.enabled && self.engaged())
    }

    /// Every control at its default.
    pub open spec fn fresh(&self) -> bool {
        &&& self.enabled == registry::ir_enabled().kind.default_spec().means_on()
        &&& self.level_db == registry::ir_level_db().kind.default_spec()
        &&& self.low_cut_enabled == registry::ir_low_cut_enabled().kind.default_spec().means_on()
        &&& self.low_cut_freq_hz == registry::ir_low_cut_freq_hz().kind.default_spec()
        &&& self.high_cut_enabled == registry::ir_high_cut_enabled().kind.default_spec().means_on()
        &&& self.high_cut_freq_hz == registry::ir_high_cut_freq_hz().kind.default_spec()
        &&& self.independent == registry::global_independent_channels().kind.default_spec().means_on()
    }

    pub open spec fn channels(&self) -> nat {
        self.handover.prepared_for.channels()
    }

    pub open spec fn places_wf(&self) -> bool {
        &&& self.handover.wf()
        &&& self.handover.playing() matches Some(s) ==> s.wf(self.channels())
        &&& self.handover.standby() matches Some(s) ==> s.wf(self.channels())
        &&& self.handover.crossfade matches Some(f) ==> f.prime == 0
    }

    pub open spec fn wf(&self) -> bool {
        &&& self.places_wf()
        &&& self.handover.prepared_for.wf()
        &&& self.mix_target == self.mix_target_spec()
    }

    pub open spec fn same_settings(&self, other: &IrStage) -> bool {
        &&& self.enabled == other.enabled
        &&& self.independent == other.independent
        &&& self.level_db == other.level_db
        &&& self.low_cut_enabled == other.low_cut_enabled
        &&& self.low_cut_freq_hz == other.low_cut_freq_hz
        &&& self.high_cut_enabled == other.high_cut_enabled
        &&& self.high_cut_freq_hz == other.high_cut_freq_hz
    }

    fn recompute_mix_target(&mut self)
        requires
            old(self).handover.wf(),
        ensures
            *final(self) == (IrStage { mix_target: old(self).mix_target_spec(), ..*old(self) }),
    {
        let active: usize = self.handover.active;
        let engaged: bool = self.handover.slots[active].is_some() || (
        self.handover.crossfade.is_some() && self.handover.slots[1 - active].is_some());
        self.mix_target = Single::switch(self.enabled && engaged);
    }

    /// Runs one place on an input with the state of channel `state`; an empty place passes the
    /// input on.
    fn run_place<S, B, C>(
        &self,
        place: usize,
        state: usize,
        dry: &Vec<Single>,
        rack: &mut Rack<S, B, C>,
    ) -> (r: (Vec<Single>, Vec<Single>, usize)) where
        B: Fn(BlockOp, Vec<Single>, S) -> (Vec<Single>, S),
        C: Fn(Convolve, Vec<Single>, S) -> (Vec<Single>, Vec<Single>, S),

        requires
            self.places_wf(),
            place < 2,
            old(rack).wf(),
        ensures
            final(rack).went_on(old(rack)),
            place_gives(
                self.handover.slots@[place as int],
                state,
                dry@,
                r.0@,
                r.1@,
                final(rack).since(old(rack)),
            ),
            r.2 == produced_by(self.handover.slots@[place as int]),
            1 <= r.2 <= 2,
    {
        let copy: Vec<Single> = dsp::copy_samples(dry);
        match &self.handover.slots[place] {
            Some(slot) => {
                let produced: usize = slot.channel_count();
                let (first, second) = rack.convolve(
                    Convolve { handle: slot.ir.handle, channel: state },
                    copy,
                );
                (first, second, produced)
            },
            None => {
                proof {
                    rack.lemma_nothing_yet();
                }
                let again: Vec<Single> = dsp::copy_samples(dry);
                (copy, again, 1)
            },
        }
    }

    /// What one physical channel hears of a place's two outputs.
    fn pick(ch: usize, made: &(Vec<Single>, Vec<Single>, usize)) -> (r: Vec<Single>)
        requires
            1 <= made.2 <= 2,
        ensures
            r@ == picked(ch as int, made.2 as int, made.0@, made.1@),
    {
        if wet_channel_index(ch, made.2) == 0 {
            dsp::copy_samples(&made.0)
        } else {
            dsp::copy_samples(&made.1)
        }
    }

    /// Puts a place's two outputs on all channels.
    fn spread_out(io: &mut StageIo, made: &(Vec<Single>, Vec<Single>, usize))
        requires
            old(io).wf(),
            1 <= made.2 <= 2,
            made.0@.len() == old(io).frames,
            made.1@.len() == old(io).frames,
        ensures
            final(io).wf(),
            final(io).same_shape(old(io)),
            spread(
                made.2 as int,
                made.0@,
                made.1@,
                old(io).channels@.len(),
                final(io).samples(),
            ),
    {
        let mut ch: usize = 0;
        while ch < io.channels.len()
            invariant
                io.wf(),
                io.same_shape(old(io)),
                1 <= made.2 <= 2,
                made.0@.len() == io.frames,
                made.1@.len() == io.frames,
                ch <= io.channels@.len(),
                forall|c: int|
                    0 <= c < ch ==> (#[trigger] io.channels@[c])@ == picked(
                        c,
                        made.2 as int,
                        made.0@,
                        made.1@,
                    ),
            decreases io.channels@.len() - ch,
        {
            io.put(ch, Self::pick(ch, made));
            ch += 1;
        }
    }

    /// What the handover becomes over a block of `n` samples.
    pub open spec fn handover_moved(&self, after: &IrStage, n: int) -> bool {
        match self.handover.crossfade {
            Some(fade) => self.handover.committed(&after.handover, fade.later(n)),
            None => after.handover == self.handover,
        }
    }

    /// Ends the block for the crossfade: its handover completes or waits.
    fn commit(&mut self, fade: Option<Crossfade>)
        requires
            old(self).wf(),
            fade is Some == old(self).handover.crossfade is Some,
            fade matches Some(f) ==> f.wf() && f.prime == 0 && f.total
                == old(self).handover.crossfade_total_samples,
        ensures
            final(self).wf(),
            final(self).same_settings(old(self)),
            final(self).mix == old(self).mix,
            match fade {
                Some(f) => old(self).handover.committed(&final(self).handover, f),
                None => final(self).handover == old(self).handover,
            },
    {
        if let Some(f) = fade {
            self.handover.commit(f);
            self.recompute_mix_target();
        }
    }

    /// Renders linked channels before the filters.
    pub fn process_wet<S, B, C, A>(
        &mut self,
        io: &mut StageIo,
        rack: &mut Rack<S, B, C>,
        arith: A,
    ) where
        B: Fn(BlockOp, Vec<Single>, S) -> (Vec<Single>, S),
        C: Fn(Convolve, Vec<Single>, S) -> (Vec<Single>, Vec<Single>, S),
        A: Fn(SampleOp) -> Single + Copy,

        requires
            old(self).wf(),
            old(io).wf(),
            0 < old(io).channels@.len() <= old(self).channels(),
            old(rack).wf(),
            dsp::computes(arith),
        ensures
            final(self).wf(),
            final(io).wf(),
            final(io).same_shape(old(io)),
            final(self).same_settings(old(self)),
            final(self).mix == old(self).mix,
            final(rack).went_on(old(rack)),
            linked_heard(
                old(self),
                arith,
                old(io).samples(),
                final(io).samples(),
                final(rack).since(old(rack)),
            ),
            old(self).handover_moved(final(self), old(io).frames as int),
    {
        let active: usize = self.handover.active;
        let dry: Vec<Single> = dsp::copy_samples(&io.channels[0]);
        let ghost dries = io.samples();
        let crossfade: Option<Crossfade> = self.handover.crossfade;
        let done: bool = match crossfade {
            Some(fade) => fade.remaining == 0,
            None => true,
        };
        if done {
            let place: usize = if crossfade.is_some() {
                1 - active
            } else {
                active
            };
            if self.handover.slots[place].is_some() {
                let made = self.run_place(place, 0, &dry, rack);
                Self::spread_out(io, &made);
                proof {
                    assert(place_gives(
                        self.handover.slots@[place as int],
                        0,
                        dries[0],
                        made.0@,
                        made.1@,
                        rack.since(old(rack)),
                    ));
                }
            } else {
                proof {
                    rack.lemma_nothing_yet();
                }
            }
            self.commit(crossfade);
            return;
        }
        let outgoing = self.run_place(active, 0, &dry, rack);
        let ghost earlier = *rack;
        let incoming = self.run_place(1 - active, 0, &dry, rack);
        proof {
            Rack::lemma_went_on(old(rack), &earlier, rack);
        }
        let mut moved: Option<Crossfade> = crossfade;
        if let Some(start) = crossfade {
            let mut ch: usize = 0;
            while ch < io.channels.len()
                invariant
                    io.wf(),
                    io.same_shape(old(io)),
                    start.wf(),
                    start.prime == 0,
                    dsp::computes(arith),
                    1 <= outgoing.2 <= 2,
                    1 <= incoming.2 <= 2,
                    outgoing.0@.len() == io.frames,
                    outgoing.1@.len() == io.frames,
                    incoming.0@.len() == io.frames,
                    incoming.1@.len() == io.frames,
                    ch <= io.channels@.len(),
                    ch > 0 ==> moved == Some(start.later(io.frames as int)),
                    forall|c: int|
                        0 <= c < ch ==> start.faded(
                            arith,
                            picked(c, outgoing.2 as int, outgoing.0@, outgoing.1@),
                            picked(c, incoming.2 as int, incoming.0@, incoming.1@),
                            (#[trigger] io.channels@[c])@,
                        ),
                decreases io.channels@.len() - ch,
            {
                let mut fade: Crossfade = start;
                let from: Vec<Single> = Self::pick(ch, &outgoing);
                let to: Vec<Single> = Self::pick(ch, &incoming);
                let out: Vec<Single> = fade.fade(&from, &to, arith);
                io.put(ch, out);
                moved = Some(fade);
                ch += 1;
            }
            proof {
                assert(both_shared(
                    old(self),
                    start,
                    arith,
                    dries,
                    io.samples(),
                    rack.since(old(rack)),
                    (outgoing.0@, outgoing.1@, earlier.since(old(rack))),
                    (incoming.0@, incoming.1@, rack.since(&earlier)),
                ));
            }
        }
        self.commit(moved);
    }

    /// Renders one independent channel before the filters. Only the block's last channel commits
    /// the crossfade: every channel of a block starts from the same point of it.
    pub fn render_channel_independent<S, B, C, A>(
        &mut self,
        io: &mut StageIo,
        ch: usize,
        commit: bool,
        rack: &mut Rack<S, B, C>,
        arith: A,
    ) where
        B: Fn(BlockOp, Vec<Single>, S) -> (Vec<Single>, S),
        C: Fn(Convolve, Vec<Single>, S) -> (Vec<Single>, Vec<Single>, S),
        A: Fn(SampleOp) -> Single + Copy,

        requires
            old(self).wf(),
            old(io).wf(),
            ch < old(io).channels@.len() <= old(self).channels(),
            old(rack).wf(),
            dsp::computes(arith),
        ensures
            final(self).wf(),
            final(io).wf(),
            final(io).same_shape(old(io)),
            final(self).same_settings(old(self)),
            final(self).mix == old(self).mix,
            forall|c: int|
                0 <= c < old(io).channels@.len() && c != ch ==> final(io).channels@[c] == old(
                    io,
                ).channels@[c],
            final(rack).went_on(old(rack)),
            channel_heard(
                old(self),
                ch,
                arith,
                old(io).channels@[ch as int]@,
                final(io).channels@[ch as int]@,
                final(rack).since(old(rack)),
            ),
            !commit ==> *final(self) == *old(self),
            commit ==> old(self).handover_moved(final(self), old(io).frames as int),
    {
        let active: usize = self.handover.active;
        let dry: Vec<Single> = dsp::copy_samples(&io.channels[ch]);
        let mut crossfade: Option<Crossfade> = self.handover.crossfade;
        match crossfade {
            None => {
                let made = self.run_place(active, ch, &dry, rack);
                io.put(ch, Self::pick(ch, &made));
            },
            Some(mut fade) => {
                if fade.remaining == 0 {
                    let made = self.run_place(1 - active, ch, &dry, rack);
                    io.put(ch, Self::pick(ch, &made));
                } else {
                    let ghost start = fade;
                    let outgoing = self.run_place(active, ch, &dry, rack);
                    let ghost earlier = *rack;
                    let incoming = self.run_place(1 - active, ch, &dry, rack);
                    let from: Vec<Single> = Self::pick(ch, &outgoing);
                    let to: Vec<Single> = Self::pick(ch, &incoming);
                    let out: Vec<Single> = fade.fade(&from, &to, arith);
                    proof {
                        Rack::lemma_went_on(old(rack), &earlier, rack);
                        assert(both_heard(
                            old(self),
                            start,
                            ch,
                            arith,
                            dry@,
                            out@,
                            rack.since(old(rack)),
                            (from@, earlier.since(old(rack))),
                            (to@, rack.since(&earlier)),
                        ));
                    }
                    io.put(ch, out);
                    crossfade = Some(fade);
                }
            },
        }
        if commit {
            self.commit(crossfade);
        }
    }

    /// Runs the two cut filters and the level on every channel.
    fn shape<S, B, C>(&self, io: &mut StageIo, rack: &mut Rack<S, B, C>) where
        B: Fn(BlockOp, Vec<Single>, S) -> (Vec<Single>, S),
        C: Fn(Convolve, Vec<Single>, S) -> (Vec<Single>, Vec<Single>, S),

        requires
            old(io).wf(),
            old(rack).wf(),
        ensures
            final(io).wf(),
            final(io).same_shape(old(io)),
            final(rack).went_on(old(rack)),
            shaped(old(io).samples(), final(io).samples(), final(rack).since(old(rack))),
    {
        let ghost mut parts: Seq<Seq<Run>> = Seq::empty();
        let mut ch: usize = 0;
        proof {
            rack.lemma_nothing_yet();
        }
        while ch < io.channels.len()
            invariant
                io.wf(),
                io.same_shape(old(io)),
                rack.went_on(old(rack)),
                parts.len() == ch,
                rack.since(old(rack)) == dsp::in_turn(parts),
                ch <= io.channels@.len(),
                forall|c: int|
                    ch <= c < io.channels@.len() ==> io.channels@[c] == old(io).channels@[c],
                forall|c: int|
                    0 <= c < ch ==> channel_shaped(
                        c as usize,
                        old(io).channels@[c]@,
                        (#[trigger] io.channels@[c])@,
                        parts[c],
                    ),
            decreases io.channels@.len() - ch,
        {
            let heard: Vec<Single> = dsp::copy_samples(&io.channels[ch]);
            let ghost a = heard@;
            let ghost earlier = *rack;
            let low: Vec<Single> = rack.run(BlockOp::LowCut { channel: ch }, heard);
            let ghost b = low@;
            let ghost after_low = *rack;
            let high: Vec<Single> = rack.run(BlockOp::HighCut { channel: ch }, low);
            let ghost c = high@;
            let ghost after_high = *rack;
            let level: Vec<Single> = rack.run(BlockOp::Level { channel: ch }, high);
            proof {
                Rack::lemma_went_on(&earlier, &after_low, &after_high);
                Rack::lemma_went_on(&earlier, &after_high, rack);
                Rack::lemma_went_on(old(rack), &earlier, rack);
                let part = rack.since(&earlier);
                assert(part =~= shape_runs(ch, a, level@, b, c));
                assert(channel_shaped(ch, a, level@, part));
                dsp::lemma_in_turn_grows(parts, part);
                parts = parts.push(part);
            }
            io.put(ch, level);
            ch += 1;
        }
        proof {
            assert(each_shaped(old(io).samples(), io.samples(), parts));
        }
    }

    /// Everything one block does, and all that ran for it: what the channels sound like, the
    /// filters and the level on each of them, the handover's progress, and the bypass blend that
    /// has the last word.
    pub open spec fn processed_via<A>(
        &self,
        after: &IrStage,
        runs: Seq<Run>,
        arith: A,
        dry: Seq<Seq<Single>>,
        out: Seq<Seq<Single>>,
        n: int,
        heard: Seq<Seq<Single>>,
        heard_runs: Seq<Run>,
        wet: Seq<Seq<Single>>,
        shape_runs: Seq<Run>,
    ) -> bool where A: Fn(SampleOp) -> Single {
        &&& heard.len() == dry.len()
        &&& if self.independent && dry.len() > 1 {
            exists|parts: Seq<Seq<Run>>| #[trigger]
                each_heard(self, arith, dry, heard, parts) && heard_runs == dsp::in_turn(parts)
        } else {
            linked_heard(self, arith, dry, heard, heard_runs)
        }
        &&& shaped(heard, wet, shape_runs)
        &&& runs == heard_runs + shape_runs
        &&& self.handover_moved(after, n)
        &&& bypass::blended(arith, self.mix, after.mix_target, dry, wet, out, after.mix)
    }

    pub open spec fn processed<A>(
        &self,
        after: &IrStage,
        runs: Seq<Run>,
        arith: A,
        dry: Seq<Seq<Single>>,
        out: Seq<Seq<Single>>,
        n: int,
    ) -> bool where A: Fn(SampleOp) -> Single {
        exists|
            heard: Seq<Seq<Single>>,
            heard_runs: Seq<Run>,
            wet: Seq<Seq<Single>>,
            shape_runs: Seq<Run>,
        | #[trigger]
            self.processed_via(
                after,
                runs,
                arith,
                dry,
                out,
                n,
                heard,
                heard_runs,
                wet,
                shape_runs,
            )
    }

    /// Runs one block in place.
    pub fn process<S, B, C, A>(
        &mut self,
        io: &mut StageIo,
        rack: &mut Rack<S, B, C>,
        arith: A,
    ) where
        B: Fn(BlockOp, Vec<Single>, S) -> (Vec<Single>, S),
        C: Fn(Convolve, Vec<Single>, S) -> (Vec<Single>, Vec<Single>, S),
        A: Fn(SampleOp) -> Single + Copy,

        requires
            old(self).wf(),
            old(io).wf(),
            0 < old(io).channels@.len() <= old(self).channels(),
            old(rack).wf(),
            dsp::computes(arith),
        ensures
            final(self).wf(),
            final(io).wf(),
            final(io).same_shape(old(io)),
            final(self).same_settings(old(self)),
            final(self).handover.held() == old(self).handover.held(),
            final(rack).went_on(old(rack)),
            old(self).processed(
                final(self),
                final(rack).since(old(rack)),
                arith,
                old(io).samples(),
                final(io).samples(),
                old(io).frames as int,
            ),
    {
        let count: usize = io.channels.len();
        let dry: Vec<Vec<Single>> = io.capture();
        let ghost dries = io.samples();
        if self.independent && count > 1 {
            let ghost mut parts: Seq<Seq<Run>> = Seq::empty();
            let mut ch: usize = 0;
            proof {
                rack.lemma_nothing_yet();
            }
            while ch < count - 1
                invariant
                    old(self).wf(),
                    *self == *old(self),
                    io.wf(),
                    io.same_shape(old(io)),
                    ch <= count - 1,
                    count == io.channels@.len(),
                    count <= old(self).channels(),
                    rack.went_on(old(rack)),
                    parts.len() == ch,
                    rack.since(old(rack)) == dsp::in_turn(parts),
                    dsp::computes(arith),
                    dries == old(io).samples(),
                    forall|c: int|
                        ch <= c < count ==> (#[trigger] io.channels@[c])@ == dries[c],
                    forall|c: int|
                        0 <= c < ch ==> channel_heard(
                            old(self),
                            c as usize,
                            arith,
                            dries[c],
                            (#[trigger] io.channels@[c])@,
                            parts[c],
                        ),
                decreases count - ch,
            {
                let ghost earlier = *rack;
                self.render_channel_independent(io, ch, false, rack, arith);
                proof {
                    let part = rack.since(&earlier);
                    Rack::lemma_went_on(old(rack), &earlier, rack);
                    dsp::lemma_in_turn_grows(parts, part);
                    parts = parts.push(part);
                }
                ch += 1;
            }
            let ghost earlier = *rack;
            self.render_channel_independent(io, count - 1, true, rack, arith);
            proof {
                let part = rack.since(&earlier);
                Rack::lemma_went_on(old(rack), &earlier, rack);
                dsp::lemma_in_turn_grows(parts, part);
                parts = parts.push(part);
                assert(each_heard(old(self), arith, dries, io.samples(), parts));
            }
        } else {
            self.process_wet(io, rack, arith);
        }
        let ghost heard = io.samples();
        let ghost halfway = *rack;
        self.shape(io, rack);
        let ghost wet = io.samples();
        let end: Single = bypass::blend(io, &dry, self.mix, self.mix_target, arith);
        self.mix = end;
        proof {
            Rack::lemma_went_on(old(rack), &halfway, rack);
            assert(Seq::new(dry@.len(), |c: int| dry@[c]@) =~= dries);
            assert(self.handover.held() =~= old(self).handover.held());
            assert(old(self).processed_via(
                self,
                rack.since(old(rack)),
                arith,
                dries,
                io.samples(),
                old(io).frames as int,
                heard,
                halfway.since(old(rack)),
                wet,
                rack.since(&halfway),
            ));
        }
    }
}

/// The low cut, the high cut and the level of one channel, in this order, with what stands between
/// them.
pub open spec fn shape_runs(
    ch: usize,
    heard: Seq<Single>,
    wet: Seq<Single>,
    low: Seq<Single>,
    high: Seq<Single>,
) -> Seq<Run> {
    seq![
        Run::Block { op: BlockOp::LowCut { channel: ch }, input: heard, output: low },
        Run::Block { op: BlockOp::HighCut { channel: ch }, input: low, output: high },
        Run::Block { op: BlockOp::Level { channel: ch }, input: high, output: wet },
    ]
}

/// One channel through the low cut, the high cut and the level.
pub open spec fn channel_shaped(
    ch: usize,
    heard: Seq<Single>,
    wet: Seq<Single>,
    runs: Seq<Run>,
) -> bool {
    exists|low: Seq<Single>, high: Seq<Single>| runs == #[trigger]
        shape_runs(ch, heard, wet, low, high)
}

/// Every channel through the low cut, the high cut and the level, each by its part of the runs.
pub open spec fn each_shaped(
    heard: Seq<Seq<Single>>,
    wet: Seq<Seq<Single>>,
    parts: Seq<Seq<Run>>,
) -> bool {
    &&& wet.len() == heard.len()
    &&& parts.len() == heard.len()
    &&& forall|ch: int|
        0 <= ch < wet.len() ==> channel_shaped(
            ch as usize,
            heard[ch],
            #[trigger] wet[ch],
            parts[ch],
        )
}

/// Every channel through the low cut, the high cut and the level, one channel after the other.
pub open spec fn shaped(
    heard: Seq<Seq<Single>>,
    wet: Seq<Seq<Single>>,
    runs: Seq<Run>,
) -> bool {
    exists|parts: Seq<Seq<Run>>| #[trigger]
        each_shaped(heard, wet, parts) && runs == dsp::in_turn(parts)
}

/// What a cut filter is designed as.
#[derive(Debug, Clone, Copy, PartialEq, Eq, Structural)]
pub enum CutTarget {
    /// The filter lets everything through.
    Identity,
    HighPass { freq_hz: Single },
    LowPass { freq_hz: Single },
}

/// What the shell's processors are told after a parameter change.
#[derive(Debug, Clone, Copy, PartialEq, Eq, Structural)]
pub enum IrUpdate {
    Nothing,
    /// Every channel's level ramp heads for this many decibels.
    Level { target_db: Single },
    /// Every channel's low cut moves to this design over so many samples.
    LowCut { target: CutTarget, ramp_samples: u32 },
    /// Every channel's high cut moves to this design over so many samples.
    HighCut { target: CutTarget, ramp_samples: u32 },
}

/// Prepares the impulse response stage.
pub struct IrPrep;

impl IrPrep {
    /// An empty stage with every control at its default and the bypass settled on the dry side.
    pub fn prepare(&self, ctx: &PrepareContext) -> (stage: IrStage)
        requires
            ctx.wf(),
        ensures
            stage.wf(),
            stage.fresh(),
            stage.handover.prepared_for == *ctx,
            stage.handover.crossfade_total_samples == handover::crossfade_samples(
                ctx.sample_rate.hz as int,
            ),
            stage.handover.active == 0,
            stage.handover.playing() is None,
            stage.handover.standby() is None,
            stage.handover.retired is None,
            stage.handover.crossfade is None,
            stage.enabled == (registry::ir_enabled().kind->default_index == 1),
            stage.level_db == registry::ir_level_db().kind->default,
            stage.low_cut_enabled == (registry::ir_low_cut_enabled().kind->default_index == 1),
            stage.low_cut_freq_hz == registry::ir_low_cut_freq_hz().kind->default,
            stage.high_cut_enabled == (registry::ir_high_cut_enabled().kind->default_index == 1),
            stage.high_cut_freq_hz == registry::ir_high_cut_freq_hz().kind->default,
            !stage.independent,
            stage.mix == Single::zero(),
            stage.mix_target == Single::zero(),
    {
        IrStage {
            handover: Handover::new(*ctx),
            enabled: stepped_default_on(registry::ir_enabled()),
            independent: false,
            mix: Single::zero(),
            mix_target: Single::zero(),
            level_db: continuous_default(registry::ir_level_db()),
            low_cut_enabled: stepped_default_on(registry::ir_low_cut_enabled()),
            low_cut_freq_hz: continuous_default(registry::ir_low_cut_freq_hz()),
            high_cut_enabled: stepped_default_on(registry::ir_high_cut_enabled()),
            high_cut_freq_hz: continuous_default(registry::ir_high_cut_freq_hz()),
        }
    }
}

/// The offered impulse response, if one is offered.
pub open spec fn slot_offered(offer: Option<Resource>) -> Multiset<IrSlot> {
    match offer {
        Some(Resource::Ir(slot, _)) => Multiset::singleton(*slot),
        _ => Multiset::empty(),
    }
}

impl IrStage {
    /// The stage lets its input through unchanged whatever its mix, so the mix cannot be heard:
    /// nothing plays or fades, both filters are off and the level is neutral.
    pub open spec fn transparent(&self) -> bool {
        &&& self.handover.playing() is None
        &&& self.handover.crossfade is None
        &&& !self.low_cut_enabled
        &&& !self.high_cut_enabled
        &&& self.level_db.is_zero_number()
    }

    pub fn wet_path_is_transparent(&self) -> (r: bool)
        requires
            self.handover.wf(),
        ensures
            r == self.transparent(),
    {
        self.handover.slots[self.handover.active].is_none() && self.handover.crossfade.is_none()
            && !self.low_cut_enabled && !self.high_cut_enabled && self.level_db.is_zero()
    }

    /// A handover to `incoming` has begun; the mix moves at once to its target where it could not
    /// be heard, and otherwise stays where it is and glides.
    pub open spec fn handover_begun(&self, after: &IrStage, incoming: Option<Box<IrSlot>>) -> bool {
        &&& self.handover.handed_over(&after.handover, incoming, 0)
        &&& after.same_settings(self)
        &&& after.mix == (if self.transparent() {
            after.mix_target
        } else {
            self.mix
        })
    }

    /// Begins a handover to `slot`, or hands it back, with `ctx`, while the pen is occupied.
    pub fn install(&mut self, slot: Box<IrSlot>, ctx: PrepareContext) -> (refused: Option<Resource>)
        requires
            old(self).wf(),
            slot.wf(old(self).channels()),
        ensures
            final(self).wf(),
            old(self).handover.retired is Some ==> refused == Some(Resource::Ir(slot, ctx))
                && *final(self) == *old(self),
            old(self).handover.retired is None ==> refused is None && old(self).handover_begun(
                final(self),
                Some(slot),
            ),
            final(self).handover.held().add(slot_offered(refused)) == old(
                self,
            ).handover.held().insert(*slot),
            refused is None && old(self).enabled && old(self).transparent() ==> final(self).mix
                == Single::one(),
    {
        let transparent: bool = self.wet_path_is_transparent();
        let ghost installed = *slot;
        match self.handover.install(slot, 0) {
            Some(back) => {
                proof {
                    assert(self.handover.held().add(Multiset::singleton(installed)) =~= old(
                        self,
                    ).handover.held().insert(installed));
                }
                Some(Resource::ir(back, ctx))
            },
            None => {
                self.recompute_mix_target();
                if transparent {
                    self.mix = self.mix_target;
                }
                None
            },
        }
    }

    /// Loads an impulse response into the stage itself, off the audio thread.
    pub fn load_ir(&mut self, ir: IrInfo)
        requires
            old(self).wf(),
            old(self).handover.retired is None,
            ir.wf(),
        ensures
            final(self).wf(),
            exists|slot: Box<IrSlot>| #[trigger]
                old(self).handover_begun(final(self), Some(slot)) && slot.ir == ir && slot.wf(
                    old(self).channels(),
                ),
    {
        let ctx: PrepareContext = self.handover.prepared_for;
        let slot = Box::new(IrSlot::new(ir, ctx.channel_config.output_channels()));
        let ghost installed = slot;
        let refused = self.install(slot, ctx);
        proof {
            assert(old(self).handover_begun(self, Some(installed)));
        }
    }

    /// A handover to nothing has begun where the pen was free; where it was not, nothing has.
    pub open spec fn unloaded(&self, after: &IrStage) -> bool {
        if self.handover.retired is None {
            self.handover_begun(after, None)
        } else {
            *after == *self
        }
    }

    /// Begins a handover to nothing; while the pen is occupied it does not.
    pub fn unload(&mut self)
        requires
            old(self).wf(),
        ensures
            final(self).wf(),
            old(self).unloaded(final(self)),
            final(self).handover.held() == old(self).handover.held(),
    {
        let transparent: bool = self.wet_path_is_transparent();
        if self.handover.retired.is_some() {
            return;
        }
        self.handover.unload();
        self.recompute_mix_target();
        if transparent {
            self.mix = self.mix_target;
        }
    }

    /// The offer can be taken: what was prepared for this very chain fits it, and for anything
    /// else there is room in the pen.
    pub open spec fn can_take(&self, offer: Option<Resource>) -> bool {
        offer matches Some(Resource::Ir(slot, ctx)) ==> if ctx == self.handover.prepared_for {
            slot.wf(self.channels())
        } else {
            self.handover.retired is None
        }
    }

    /// What becomes of an offer, `left` being what is still on offer afterwards.
    pub open spec fn accepted(
        &self,
        offer: Option<Resource>,
        after: &IrStage,
        left: Option<Resource>,
    ) -> bool {
        match offer {
            Some(Resource::Ir(slot, ctx)) => if ctx != self.handover.prepared_for {
                &&& left is None
                &&& *after == (IrStage {
                    handover: Handover { retired: Some(Parked { slot, ctx }), ..self.handover },
                    ..*self
                })
            } else if self.handover.retired is Some {
                left == offer && *after == *self
            } else {
                left is None && self.handover_begun(after, Some(slot))
            },
            _ => left == offer && *after == *self,
        }
    }

    /// Takes an offered impulse response and begins the handover to it. One prepared for other
    /// figures goes straight to the pen, and one that finds the pen occupied stays on offer.
    pub fn accept_resource(&mut self, offer: &mut Option<Resource>)
        requires
            old(self).wf(),
            old(self).can_take(*old(offer)),
        ensures
            final(self).wf(),
            old(self).accepted(*old(offer), final(self), *final(offer)),
            final(self).handover.held().add(slot_offered(*final(offer))) == old(
                self,
            ).handover.held().add(slot_offered(*old(offer))),
    {
        let ghost offered = *offer;
        match Resource::take_ir(offer) {
            None => {},
            Some((slot, ctx)) => {
                let ghost taken = *slot;
                if ctx != self.handover.prepared_for {
                    self.handover.retired = Some(Parked { slot, ctx });
                } else {
                    let refused = self.install(slot, ctx);
                    *offer = refused;
                }
                proof {
                    assert(old(self).handover.held().insert(taken) =~= old(
                        self,
                    ).handover.held().add(slot_offered(offered)));
                    assert(self.handover.held().add(slot_offered(*offer)) =~= old(
                        self,
                    ).handover.held().add(slot_offered(offered)));
                }
            },
        }
    }

    /// Puts back in the pen what a push gave back.
    pub fn keep_rejected(&mut self, outcome: Result<(), Resource>)
        requires
            old(self).wf(),
            old(self).handover.retired is None,
            outcome matches Err(back) ==> back is Ir,
        ensures
            final(self).wf(),
            *final(self) == (IrStage {
                handover: Handover {
                    retired: (match outcome {
                        Err(Resource::Ir(slot, ctx)) => Some(Parked { slot, ctx }),
                        _ => None,
                    }),
                    ..old(self).handover
                },
                ..*old(self)
            }),
    {
        if let Err(Resource::Ir(slot, ctx)) = outcome {
            self.handover.retired = Some(Parked { slot, ctx });
        }
    }

    /// What is in the pen was offered to the return ring, once, and is gone from the pen exactly
    /// where the ring took it; an empty pen offers nothing.
    pub open spec fn returned(
        &self,
        after: &IrStage,
        answered: Seq<(Resource, bool)>,
        answered_after: Seq<(Resource, bool)>,
    ) -> bool {
        match self.handover.retired {
            None => *after == *self && answered_after == answered,
            Some(parked) => {
                let taken = answered_after.last().1;
                &&& answered_after == answered.push(
                    (Resource::Ir(parked.slot, parked.ctx), taken),
                )
                &&& *after == (IrStage {
                    handover: Handover {
                        retired: if taken {
                            None
                        } else {
                            Some(parked)
                        },
                        ..self.handover
                    },
                    ..*self
                })
            },
        }
    }

    /// Offers what is in the pen to the return ring, once, and keeps it where the ring is full: it
    /// is in one of the two places afterwards and never lost.
    pub fn collect_retired(&mut self, out: &mut RetireSink<'_>)
        requires
            old(self).wf(),
            old(out).rejections() < usize::MAX,
        ensures
            final(self).wf(),
            old(self).returned(final(self), old(out).answered(), final(out).answered()),
            match old(self).handover.retired {
                None => {
                    &&& *final(self) == *old(self)
                    &&& final(out).answered() == old(out).answered()
                    &&& final(out).rejections() == old(out).rejections()
                },
                Some(parked) => {
                    ||| {
                        &&& *final(self) == (IrStage {
                            handover: Handover { retired: None, ..old(self).handover },
                            ..*old(self)
                        })
                        &&& final(out).answered() == old(out).answered().push(
                            (Resource::Ir(parked.slot, parked.ctx), true),
                        )
                        &&& final(out).sent() == old(out).sent().push(
                            Resource::Ir(parked.slot, parked.ctx),
                        )
                        &&& final(out).rejections() == old(out).rejections()
                    }
                    ||| {
                        &&& *final(self) == *old(self)
                        &&& final(out).answered() == old(out).answered().push(
                            (Resource::Ir(parked.slot, parked.ctx), false),
                        )
                        &&& final(out).sent() == old(out).sent()
                        &&& final(out).rejections() == old(out).rejections() + 1
                    }
                },
            },
    {
        if let Some(parked) = self.handover.retired.take() {
            let outcome = out.push(Resource::ir(parked.slot, parked.ctx));
            self.keep_rejected(outcome);
        }
    }

    pub fn unload_resource(&mut self, kind: ResourceKind)
        requires
            old(self).wf(),
        ensures
            final(self).wf(),
            kind == ResourceKind::Ir ==> old(self).unloaded(final(self)),
            kind != ResourceKind::Ir ==> *final(self) == *old(self),
            final(self).handover.held() == old(self).handover.held(),
    {
        if kind == ResourceKind::Ir {
            self.unload();
        }
    }

    /// Every channel's low cut, and then every channel's high cut.
    pub open spec fn cleared_by_reset(&self) -> Seq<BlockOp> {
        dsp::of_every_channel(BlockOp::LowCut { channel: 0 }, self.channels())
            + dsp::of_every_channel(BlockOp::HighCut { channel: 0 }, self.channels())
    }

    /// Which processors a reset clears: every channel's two cuts. The level ramps keep where they
    /// are, and so does what has been convolved.
    pub fn reset(&self) -> (cleared: Vec<BlockOp>)
        ensures
            cleared@ == self.cleared_by_reset(),
    {
        let channels: usize = self.handover.prepared_for.channel_config.output_channels();
        let mut cleared: Vec<BlockOp> = Vec::new();
        dsp::list_every_channel(BlockOp::LowCut { channel: 0 }, channels, &mut cleared);
        dsp::list_every_channel(BlockOp::HighCut { channel: 0 }, channels, &mut cleared);
        cleared
    }

    pub fn latency_samples(&self) -> (n: u32)
        ensures
            n == 0,
    {
        0
    }

    /// The length of the impulse response that plays.
    pub open spec fn tail(&self) -> u32 {
        match self.handover.playing() {
            Some(slot) => slot.ir.len_samples as u32,
            None => 0,
        }
    }

    /// The length of the impulse response that plays.
    pub fn tail_samples(&self) -> (n: u32)
        requires
            self.wf(),
        ensures
            n == self.tail(),
    {
        match &self.handover.slots[self.handover.active] {
            Some(slot) => slot.tail_samples(),
            None => 0,
        }
    }

    pub open spec fn low_cut_spec(&self) -> CutTarget {
        if self.low_cut_enabled {
            CutTarget::HighPass { freq_hz: self.low_cut_freq_hz }
        } else {
            CutTarget::Identity
        }
    }

    pub open spec fn high_cut_spec(&self) -> CutTarget {
        if self.high_cut_enabled {
            CutTarget::LowPass { freq_hz: self.high_cut_freq_hz }
        } else {
            CutTarget::Identity
        }
    }

    /// What the low cut is designed as now.
    pub fn low_cut_target(&self) -> (t: CutTarget)
        ensures
            t == self.low_cut_spec(),
    {
        if self.low_cut_enabled {
            CutTarget::HighPass { freq_hz: self.low_cut_freq_hz }
        } else {
            CutTarget::Identity
        }
    }

    /// What the high cut is designed as now.
    pub fn high_cut_target(&self) -> (t: CutTarget)
        ensures
            t == self.high_cut_spec(),
    {
        if self.high_cut_enabled {
            CutTarget::LowPass { freq_hz: self.high_cut_freq_hz }
        } else {
            CutTarget::Identity
        }
    }

    fn retarget_low_cut(&self) -> (u: IrUpdate)
        ensures
            u == (IrUpdate::LowCut {
                target: self.low_cut_spec(),
                ramp_samples: self.handover.prepared_for.max_block_size as u32,
            }),
    {
        IrUpdate::LowCut {
            target: self.low_cut_target(),
            ramp_samples: self.handover.prepared_for.max_block_size as u32,
        }
    }

    fn retarget_high_cut(&self) -> (u: IrUpdate)
        ensures
            u == (IrUpdate::HighCut {
                target: self.high_cut_spec(),
                ramp_samples: self.handover.prepared_for.max_block_size as u32,
            }),
    {
        IrUpdate::HighCut {
            target: self.high_cut_target(),
            ramp_samples: self.handover.prepared_for.max_block_size as u32,
        }
    }

    /// This stage after a parameter change: one that is not its own leaves it as it is.
    pub open spec fn changed_by(&self, change: ParamChange) -> IrStage {
        let on = change.value.means_on();
        if change.id == param::id_of("ir.enabled"@) {
            IrStage {
                enabled: on,
                mix_target: Single::switch(on && self.engaged()),
                ..*self
            }
        } else if change.id == param::id_of("ir.level_db"@) {
            IrStage { level_db: change.value, ..*self }
        } else if change.id == param::id_of("ir.low_cut_enabled"@) {
            IrStage { low_cut_enabled: on, ..*self }
        } else if change.id == param::id_of("ir.low_cut_freq_hz"@) {
            IrStage { low_cut_freq_hz: change.value, ..*self }
        } else if change.id == param::id_of("ir.high_cut_enabled"@) {
            IrStage { high_cut_enabled: on, ..*self }
        } else if change.id == param::id_of("ir.high_cut_freq_hz"@) {
            IrStage { high_cut_freq_hz: change.value, ..*self }
        } else if change.id == param::id_of("global.independent_channels"@) {
            IrStage { independent: on, ..*self }
        } else {
            *self
        }
    }

    /// What the shell's processors are told of a change that this stage has just taken.
    pub open spec fn update_for(&self, change: ParamChange) -> IrUpdate {
        let ramp_samples = self.handover.prepared_for.max_block_size as u32;
        if change.id == param::id_of("ir.enabled"@) {
            IrUpdate::Nothing
        } else if change.id == param::id_of("ir.level_db"@) {
            IrUpdate::Level { target_db: change.value }
        } else if change.id == param::id_of("ir.low_cut_enabled"@) || change.id == param::id_of(
            "ir.low_cut_freq_hz"@,
        ) {
            IrUpdate::LowCut { target: self.low_cut_spec(), ramp_samples }
        } else if change.id == param::id_of("ir.high_cut_enabled"@) || change.id == param::id_of(
            "ir.high_cut_freq_hz"@,
        ) {
            IrUpdate::HighCut { target: self.high_cut_spec(), ramp_samples }
        } else {
            IrUpdate::Nothing
        }
    }

    /// Takes a parameter change that is this stage's, and ignores any other.
    pub fn apply(&mut self, change: ParamChange) -> (update: IrUpdate)
        requires
            old(self).wf(),
        ensures
            final(self).wf(),
            *final(self) == old(self).changed_by(change),
            update == final(self).update_for(change),
    {
        if change.id == ParamId::from_key("ir.enabled") {
            self.enabled = change.value.is_on();
            self.recompute_mix_target();
            IrUpdate::Nothing
        } else if change.id == ParamId::from_key("ir.level_db") {
            self.level_db = change.value;
            IrUpdate::Level { target_db: change.value }
        } else if change.id == ParamId::from_key("ir.low_cut_enabled") {
            self.low_cut_enabled = change.value.is_on();
            self.retarget_low_cut()
        } else if change.id == ParamId::from_key("ir.low_cut_freq_hz") {
            self.low_cut_freq_hz = change.value;
            self.retarget_low_cut()
        } else if change.id == ParamId::from_key("ir.high_cut_enabled") {
            self.high_cut_enabled = change.value.is_on();
            self.retarget_high_cut()
        } else if change.id == ParamId::from_key("ir.high_cut_freq_hz") {
            self.high_cut_freq_hz = change.value;
            self.retarget_high_cut()
        } else if change.id == ParamId::from_key("global.independent_channels") {
            self.independent = change.value.is_on();
            IrUpdate::Nothing
        } else {
            IrUpdate::Nothing
        }
    }

    /// What is reported: whether an impulse response plays, and whether a handover is under way.
    pub open spec fn reported(&self) -> Seq<TelemetryEntry> {
        seq![
            TelemetryEntry {
                id: param::id_of("telemetry.ir.loaded"@).value,
                value: Single::switch(self.handover.playing() is Some),
            },
            TelemetryEntry {
                id: param::id_of("telemetry.ir.handover_active"@).value,
                value: Single::switch(self.handover.crossfade is Some),
            },
        ]
    }

    /// Reports whether an impulse response plays and whether a handover is under way.
    pub fn telemetry(&self, out: &mut Vec<TelemetryEntry>)
        requires
            self.wf(),
        ensures
            final(out)@ == old(out)@ + self.reported(),
    {
        let loaded: bool = self.handover.slots[self.handover.active].is_some();
        out.push(
            TelemetryEntry {
                id: ParamId::from_key("telemetry.ir.loaded").value,
                value: Single::switch(loaded),
            },
        );
        out.push(
            TelemetryEntry {
                id: ParamId::from_key("telemetry.ir.handover_active").value,
                value: Single::switch(self.handover.crossfade.is_some()),
            },
        );
    }
}

proof fn lemma_shaping_convolves_nothing(
    heard: Seq<Seq<Single>>,
    wet: Seq<Seq<Single>>,
    parts: Seq<Seq<Run>>,
    by: Convolve,
)
    requires
        each_shaped(heard, wet, parts),
    ensures
        dsp::handed(dsp::in_turn(parts), by) == Seq::<Single>::empty(),
    decreases parts.len(),
{
    if parts.len() > 0 {
        let n = parts.len() - 1;
        let part = parts.last();
        assert(each_shaped(heard.drop_last(), wet.drop_last(), parts.drop_last())) by {
            assert forall|ch: int| 0 <= ch < n implies channel_shaped(
                ch as usize,
                heard.drop_last()[ch],
                #[trigger] wet.drop_last()[ch],
                parts.drop_last()[ch],
            ) by {
                assert(wet.drop_last()[ch] == wet[ch]);
            }
        }
        lemma_shaping_convolves_nothing(
            heard.drop_last(),
            wet.drop_last(),
            parts.drop_last(),
            by,
        );
        assert(channel_shaped(n as usize, heard[n], wet[n], parts[n]));
        assert(dsp::handed(part, by) =~= Seq::empty()) by {
            reveal_with_fuel(dsp::handed, 4);
        }
        dsp::lemma_a_processor_hears_one_stream(
            dsp::in_turn(parts.drop_last()),
            part,
            by,
            BlockOp::Level { channel: 0 },
        );
    }
}

/// While one impulse response plays, its convolution hears the signal without a gap or a repeat:
/// in every block each channel's state is handed exactly that channel's samples where channels are
/// independent, and where they are linked channel 0's is handed channel 0's and no other state is
/// touched.
pub proof fn lemma_a_convolution_hears_the_signal<A>(
    before: &IrStage,
    after: &IrStage,
    runs: Seq<Run>,
    arith: A,
    dry: Seq<Seq<Single>>,
    out: Seq<Seq<Single>>,
    n: int,
    slot: Box<IrSlot>,
    channel: usize,
) where A: Fn(SampleOp) -> Single
    requires
        before.processed(after, runs, arith, dry, out, n),
        before.handover.crossfade is None,
        before.handover.playing() == Some(slot),
        0 < dry.len() <= 2,
    ensures
        ({
            let each = before.independent && dry.len() > 1;
            dsp::handed(runs, Convolve { handle: slot.ir.handle, channel }) == (if channel == 0 || (
            each && channel < dry.len()) {
                dry[channel as int]
            } else {
                Seq::empty()
            })
        }),
{
    let by = Convolve { handle: slot.ir.handle, channel };
    let other = BlockOp::Level { channel: 0 };
    let (heard, heard_runs, wet, shaping) = choose|
        heard: Seq<Seq<Single>>,
        heard_runs: Seq<Run>,
        wet: Seq<Seq<Single>>,
        shaping: Seq<Run>,
    | #[trigger]
        before.processed_via(
            after,
            runs,
            arith,
            dry,
            out,
            n,
            heard,
            heard_runs,
            wet,
            shaping,
        );
    let shaped_parts = choose|parts: Seq<Seq<Run>>| #[trigger]
        each_shaped(heard, wet, parts) && shaping == dsp::in_turn(parts);
    lemma_shaping_convolves_nothing(heard, wet, shaped_parts, by);
    dsp::lemma_a_processor_hears_one_stream(heard_runs, shaping, by, other);
    assert(dsp::handed(runs, by) =~= dsp::handed(heard_runs, by));
    reveal_with_fuel(dsp::handed, 2);
    if before.independent && dry.len() > 1 {
        let parts = choose|parts: Seq<Seq<Run>>| #[trigger]
            each_heard(before, arith, dry, heard, parts) && heard_runs == dsp::in_turn(parts);
        assert(channel_heard(before, 0, arith, dry[0], heard[0], parts[0]));
        assert(channel_heard(before, 1, arith, dry[1], heard[1], parts[1]));
        reveal_with_fuel(dsp::in_turn, 3);
        assert(parts.drop_last().last() == parts[0]);
        assert(heard_runs =~= parts[0] + parts[1]);
        dsp::lemma_a_processor_hears_one_stream(parts[0], parts[1], by, other);
        assert(dsp::handed(parts[0], by) =~= (if channel == 0 {
            dry[0]
        } else {
            Seq::empty()
        }));
        assert(dsp::handed(parts[1], by) =~= (if channel == 1 {
            dry[1]
        } else {
            Seq::empty()
        }));
        assert(dsp::handed(runs, by) =~= dsp::handed(parts[0], by) + dsp::handed(parts[1], by));
    } else {
        assert(shared_heard(Some(slot), dry, heard, heard_runs));
        assert(dsp::handed(heard_runs, by) =~= (if channel == 0 {
            dry[0]
        } else {
            Seq::empty()
        }));
    }
}

/// A handover whose crossfade is over completes with the first block that finds the pen free: what
/// was faded in plays, what was faded out is in the pen, and nothing stands by.
pub proof fn lemma_handover_completes_once_the_pen_is_free(
    before: &IrStage,
    after: &IrStage,
    fade: Crossfade,
    n: int,
)
    requires
        before.wf(),
        before.handover_moved(after, n),
        before.handover.crossfade == Some(fade),
        fade.later(n).remaining == 0,
        before.handover.retired is None,
    ensures
        after.handover.crossfade is None,
        after.handover.playing() == before.handover.standby(),
        after.handover.parked() == before.handover.playing(),
        after.handover.standby() is None,
{
}

/// While the pen is occupied a handover never completes: both places stay as they are and so does
/// what is in the pen, however long the crossfade has been over.
pub proof fn lemma_handover_waits_for_the_pen(
    before: &IrStage,
    after: &IrStage,
    fade: Crossfade,
    n: int,
)
    requires
        before.wf(),
        before.handover_moved(after, n),
        before.handover.crossfade == Some(fade),
        before.handover.retired is Some,
    ensures
        after.handover == (Handover { crossfade: Some(fade.later(n)), ..before.handover }),
{
}

/// Loading a replacement into a stage that plays an impulse response moves neither the bypass nor
/// its target.
pub proof fn lemma_replacement_leaves_the_bypass_alone(
    before: &IrStage,
    after: &IrStage,
    slot: Box<IrSlot>,
)
    requires
        before.wf(),
        after.wf(),
        before.handover.playing() is Some,
        before.handover_begun(after, Some(slot)),
    ensures
        after.mix == before.mix,
        after.mix_target == before.mix_target,
{
}

/// A first load into a stage that is on has the bypass head for the wet side for the whole handover
/// and after it; where the stage lets everything through, the bypass is there from the first
/// sample, and where a filter or the level would be heard, it glides from where it was.
pub proof fn lemma_first_load_is_heard_for_the_whole_fade(
    empty: &IrStage,
    loaded: &IrStage,
    slot: Box<IrSlot>,
    after: &IrStage,
    n: int,
)
    requires
        empty.wf(),
        loaded.wf(),
        after.wf(),
        empty.enabled,
        empty.handover.playing() is None,
        empty.handover_begun(loaded, Some(slot)),
        loaded.handover_moved(after, n),
        after.same_settings(loaded),
    ensures
        loaded.mix_target == Single::one(),
        after.mix_target == Single::one(),
        empty.transparent() ==> loaded.mix == Single::one(),
        !empty.transparent() ==> loaded.mix == empty.mix,
{
}

/// What an independent channel hears of one place: an empty one passes the channel on and runs
/// nothing; an impulse response is convolved once, with that channel's own state, on that channel's
/// own samples, and of one with two channels the first channel hears the first output and the
/// second the second, while of one with a single channel both hear the first.
pub proof fn lemma_an_independent_channel_hears_its_own_output(
    place: Option<Box<IrSlot>>,
    ch: usize,
    input: Seq<Single>,
    out: Seq<Single>,
    runs: Seq<Run>,
)
    requires
        place_heard(place, ch, input, out, runs),
        place matches Some(slot) ==> slot.ir.wf(),
    ensures
        out.len() == input.len(),
        place is None ==> out == input && runs.len() == 0,
        place matches Some(slot) ==> {
            &&& runs.len() == 1
            &&& runs[0] matches Run::Convolved { by, input: heard, first, second }
            &&& by.handle == slot.ir.handle
            &&& by.channel == ch
            &&& heard == input
            &&& slot.ir.channel_count == 2 && ch > 0 ==> out == second
            &&& slot.ir.channel_count == 1 || ch == 0 ==> out == first
        },
{
}

/// What linked channels hear of one place: an empty one leaves every channel as it is and runs
/// nothing; an impulse response is convolved once, with channel 0's state, on channel 0's samples,
/// and of one with two channels the first channel carries the first output and the second the
/// second, while of one with a single channel all carry the first.
pub proof fn lemma_linked_channels_share_one_convolution(
    place: Option<Box<IrSlot>>,
    dry: Seq<Seq<Single>>,
    outs: Seq<Seq<Single>>,
    runs: Seq<Run>,
    ch: int,
)
    requires
        shared_heard(place, dry, outs, runs),
        place matches Some(slot) ==> slot.ir.wf(),
        0 <= ch < dry.len(),
    ensures
        outs.len() == dry.len(),
        place is None ==> outs[ch] == dry[ch] && runs.len() == 0,
        place matches Some(slot) ==> {
            &&& runs.len() == 1
            &&& runs[0] matches Run::Convolved { by, input: heard, first, second }
            &&& by.handle == slot.ir.handle
            &&& by.channel == 0
            &&& heard == dry[0]
            &&& slot.ir.channel_count == 2 && ch > 0 ==> outs[ch] == second
            &&& slot.ir.channel_count == 1 || ch == 0 ==> outs[ch] == first
        },
{
    if place is Some {
        let (first, second) = choose|first: Seq<Single>, second: Seq<Single>| #[trigger]
            place_gives(place, 0, dry[0], first, second, runs) && spread(
                produced_by(place),
                first,
                second,
                dry.len(),
                outs,
            );
        assert(outs[ch] == picked(ch, produced_by(place), first, second));
    }
}

/// While one impulse response fades into another on an independent channel, both are convolved with
/// that channel's own state on that channel's own samples, the one that plays first; each is heard
/// as it is alone, and every sample is a step of the fade from the one that played to the one that
/// stood by.
pub proof fn lemma_both_places_are_heard_while_one_fades<A>(
    stage: &IrStage,
    fade: Crossfade,
    ch: usize,
    arith: A,
    dry: Seq<Single>,
    out: Seq<Single>,
    runs: Seq<Run>,
    outgoing: (Seq<Single>, Seq<Run>),
    incoming: (Seq<Single>, Seq<Run>),
    i: int,
) where A: Fn(SampleOp) -> Single
    requires
        stage.wf(),
        stage.handover.crossfade == Some(fade),
        both_heard(stage, fade, ch, arith, dry, out, runs, outgoing, incoming),
        0 <= i < out.len(),
    ensures
        ({
            let playing = stage.handover.slots@[stage.handover.active as int];
            let standby = stage.handover.slots@[1 - stage.handover.active];
            let of = |slot: Box<IrSlot>, side: (Seq<Single>, Seq<Run>)|
                side.1.len() == 1 && (side.1[0] matches Run::Convolved {
                    by,
                    input: heard,
                    first,
                    second,
                } && by.handle == slot.ir.handle && by.channel == ch && heard == dry && side.0 == (
                if slot.ir.channel_count == 2 && ch > 0 {
                    second
                } else {
                    first
                }));
            &&& out.len() == dry.len()
            &&& runs == outgoing.1 + incoming.1
            &&& playing is None ==> outgoing.0 == dry && outgoing.1.len() == 0
            &&& standby is None ==> incoming.0 == dry && incoming.1.len() == 0
            &&& playing matches Some(slot) ==> of(slot, outgoing)
            &&& standby matches Some(slot) ==> of(slot, incoming)
            &&& i < fade.remaining ==> call_ensures(
                arith,
                (SampleOp::Fade {
                    outgoing: outgoing.0[i],
                    incoming: incoming.0[i],
                    progress: (fade.total - fade.remaining + i) as u32,
                    total: fade.total,
                },),
                out[i],
            )
        }),
{
    lemma_an_independent_channel_hears_its_own_output(
        stage.handover.playing(),
        ch,
        dry,
        outgoing.0,
        outgoing.1,
    );
    lemma_an_independent_channel_hears_its_own_output(
        stage.handover.standby(),
        ch,
        dry,
        incoming.0,
        incoming.1,
    );
    handover::lemma_a_fade_goes_from_the_outgoing_to_the_incoming(
        fade,
        arith,
        outgoing.0,
        incoming.0,
        out,
        i,
    );
}

/// While one impulse response fades into another on linked channels, both are convolved once, with
/// channel 0's state on channel 0's samples, the one that plays first; every channel hears its own
/// share of each, and every sample of every channel is a step of the fade from the one that played
/// to the one that stood by, all channels from the same point of it.
pub proof fn lemma_both_places_are_shared_while_one_fades<A>(
    stage: &IrStage,
    fade: Crossfade,
    arith: A,
    dry: Seq<Seq<Single>>,
    outs: Seq<Seq<Single>>,
    runs: Seq<Run>,
    outgoing: (Seq<Single>, Seq<Single>, Seq<Run>),
    incoming: (Seq<Single>, Seq<Single>, Seq<Run>),
    ch: int,
    i: int,
) where A: Fn(SampleOp) -> Single
    requires
        stage.wf(),
        stage.handover.crossfade == Some(fade),
        both_shared(stage, fade, arith, dry, outs, runs, outgoing, incoming),
        0 <= ch < outs.len(),
        0 <= i < outs[ch].len(),
    ensures
        ({
            let playing = stage.handover.slots@[stage.handover.active as int];
            let standby = stage.handover.slots@[1 - stage.handover.active];
            let ran = |slot: Box<IrSlot>, side: (Seq<Single>, Seq<Single>, Seq<Run>)|
                side.2 == seq![
                    Run::Convolved {
                        by: Convolve { handle: slot.ir.handle, channel: 0 },
                        input: dry[0],
                        first: side.0,
                        second: side.1,
                    },
                ];
            let share = |
                place: Option<Box<IrSlot>>,
                side: (Seq<Single>, Seq<Single>, Seq<Run>),
            |
                if ch > 0 && place is Some && (place->0).ir.channel_count == 2 {
                    side.1
                } else {
                    side.0
                };
            &&& outs.len() == dry.len()
            &&& runs == outgoing.2 + incoming.2
            &&& playing is None ==> outgoing.0 == dry[0] && outgoing.2.len() == 0
            &&& standby is None ==> incoming.0 == dry[0] && incoming.2.len() == 0
            &&& playing matches Some(slot) ==> ran(slot, outgoing)
            &&& standby matches Some(slot) ==> ran(slot, incoming)
            &&& i < fade.remaining ==> call_ensures(
                arith,
                (SampleOp::Fade {
                    outgoing: share(playing, outgoing)[i],
                    incoming: share(standby, incoming)[i],
                    progress: (fade.total - fade.remaining + i) as u32,
                    total: fade.total,
                },),
                outs[ch][i],
            )
        }),
{
    let (from, to) = (stage.handover.playing(), stage.handover.standby());
    let a = picked(ch, produced_by(from), outgoing.0, outgoing.1);
    let b = picked(ch, produced_by(to), incoming.0, incoming.1);
    assert(fade.faded(arith, a, b, outs[ch]));
    handover::lemma_a_fade_goes_from_the_outgoing_to_the_incoming(fade, arith, a, b, outs[ch], i);
}

/// Behind what a channel sounds like its own low cut runs on it, then its own high cut on what the
/// low cut gave, then its own level on what the high cut gave, each once; nothing else runs.
pub proof fn lemma_a_channel_is_cut_low_then_high_then_levelled(
    ch: usize,
    heard: Seq<Single>,
    wet: Seq<Single>,
    runs: Seq<Run>,
)
    requires
        channel_shaped(ch, heard, wet, runs),
    ensures
        runs.len() == 3,
        runs[0] matches Run::Block { op, input, output } && op == (BlockOp::LowCut {
            channel: ch,
        }) && input == heard,
        runs[1] matches Run::Block { op, input, output } && op == (BlockOp::HighCut {
            channel: ch,
        }) && input == runs[0]->Block_output,
        runs[2] matches Run::Block { op, input, output } && op == (BlockOp::Level {
            channel: ch,
        }) && input == runs[1]->Block_output && output == wet,
{
}

/// While one impulse response plays and the bypass has arrived, a stage that is off gives exactly
/// what came in. One that is on gives on every channel what that channel's level gave, behind its
/// high cut and its low cut; and the low cut was handed what the channel sounds like: where channels
/// are independent an output of the convolution of its own samples with its own state, and where
/// they are linked one of the convolution of channel 0's, the second output on the second channel
/// of an impulse response that has two, and the first everywhere else.
pub proof fn lemma_what_is_heard_of_the_impulse_response<A>(
    before: &IrStage,
    after: &IrStage,
    runs: Seq<Run>,
    arith: A,
    dry: Seq<Seq<Single>>,
    out: Seq<Seq<Single>>,
    n: int,
    slot: Box<IrSlot>,
    ch: int,
) where A: Fn(SampleOp) -> Single
    requires
        before.wf(),
        after.wf(),
        after.same_settings(before),
        before.processed(after, runs, arith, dry, out, n),
        before.handover.crossfade is None,
        before.handover.playing() == Some(slot),
        bypass::settles(arith),
        before.mix == before.mix_target,
        0 <= ch < dry.len() <= before.channels(),
        forall|c: int| 0 <= c < dry.len() ==> (#[trigger] dry[c]).len() == dry[0].len(),
        forall|i: int|
            0 <= i < runs.len() && (#[trigger] runs[i]) is Block ==> runs[i]->Block_output.len()
                == runs[i]->Block_input.len(),
    ensures
        ({
            let each = before.independent && dry.len() > 1;
            let state = if each {
                ch
            } else {
                0
            };
            let at = if each {
                dry.len() + 3 * ch
            } else {
                1 + 3 * ch
            };
            &&& runs.len() == (if each {
                4 * dry.len()
            } else {
                1 + 3 * dry.len()
            })
            &&& runs[state] matches Run::Convolved { by, input, first, second }
            &&& by.handle == slot.ir.handle
            &&& by.channel == state
            &&& input == dry[state]
            &&& runs[at] is Block && runs[at]->Block_op == (BlockOp::LowCut { channel: ch as usize })
            &&& runs[at]->Block_input == (if slot.ir.channel_count == 2 && ch > 0 {
                second
            } else {
                first
            })
            &&& runs[at + 1] is Block && runs[at + 1]->Block_op == (BlockOp::HighCut {
                channel: ch as usize,
            })
            &&& runs[at + 1]->Block_input == runs[at]->Block_output
            &&& runs[at + 2] is Block && runs[at + 2]->Block_op == (BlockOp::Level {
                channel: ch as usize,
            })
            &&& runs[at + 2]->Block_input == runs[at + 1]->Block_output
            &&& !before.enabled ==> out == dry && after.mix == Single::zero()
            &&& before.enabled ==> out.len() == dry.len() && out[ch] == runs[at + 2]->Block_output
                && after.mix == Single::one()
        }),
{
    let each = before.independent && dry.len() > 1;
    let (heard, heard_runs, wet, shaping) = choose|
        heard: Seq<Seq<Single>>,
        heard_runs: Seq<Run>,
        wet: Seq<Seq<Single>>,
        shaping: Seq<Run>,
    | #[trigger]
        before.processed_via(
            after,
            runs,
            arith,
            dry,
            out,
            n,
            heard,
            heard_runs,
            wet,
            shaping,
        );
    let shaped_parts = choose|parts: Seq<Seq<Run>>| #[trigger]
        each_shaped(heard, wet, parts) && shaping == dsp::in_turn(parts);
    assert(channel_shaped(0, heard[0], wet[0], shaped_parts[0]));
    lemma_a_channel_is_cut_low_then_high_then_levelled(0, heard[0], wet[0], shaped_parts[0]);
    reveal_with_fuel(dsp::in_turn, 3);
    if dry.len() == 2 {
        assert(channel_shaped(1, heard[1], wet[1], shaped_parts[1]));
        lemma_a_channel_is_cut_low_then_high_then_levelled(1, heard[1], wet[1], shaped_parts[1]);
        assert(shaped_parts.drop_last().last() == shaped_parts[0]);
        assert(shaping =~= shaped_parts[0] + shaped_parts[1]);
    } else {
        assert(shaping =~= shaped_parts[0]);
    }
    if each {
        let parts = choose|parts: Seq<Seq<Run>>| #[trigger]
            each_heard(before, arith, dry, heard, parts) && heard_runs == dsp::in_turn(parts);
        assert(channel_heard(before, 0, arith, dry[0], heard[0], parts[0]));
        assert(channel_heard(before, 1, arith, dry[1], heard[1], parts[1]));
        lemma_an_independent_channel_hears_its_own_output(
            Some(slot),
            0,
            dry[0],
            heard[0],
            parts[0],
        );
        lemma_an_independent_channel_hears_its_own_output(
            Some(slot),
            1,
            dry[1],
            heard[1],
            parts[1],
        );
        assert(parts.drop_last().last() == parts[0]);
        assert(heard_runs =~= parts[0] + parts[1]);
    } else {
        lemma_linked_channels_share_one_convolution(Some(slot), dry, heard, heard_runs, 0);
        lemma_linked_channels_share_one_convolution(Some(slot), dry, heard, heard_runs, ch);
        if dry.len() == 2 {
            lemma_linked_channels_share_one_convolution(Some(slot), dry, heard, heard_runs, 1);
        }
        let (first, second) = choose|first: Seq<Single>, second: Seq<Single>| #[trigger]
            place_gives(Some(slot), 0, dry[0], first, second, heard_runs) && spread(
                produced_by(Some(slot)),
                first,
                second,
                dry.len(),
                heard,
            );
        assert(heard_runs[0] == (Run::Convolved {
            by: Convolve { handle: slot.ir.handle, channel: 0 },
            input: dry[0],
            first,
            second,
        }));
    }
    let k = heard_runs.len() as int;
    assert forall|i: int| 0 <= i < 3 implies #[trigger] runs[k + i] == shaped_parts[0][i] by {}
    if dry.len() == 2 {
        assert forall|i: int| 0 <= i < 3 implies #[trigger] runs[k + 3 + i] == shaped_parts[1][i] by {}
    }
    assert forall|c: int| 0 <= c < wet.len() implies (#[trigger] dry[c]).len() == wet[c].len() by {
        assert(runs[k + 3 * c + 0] == shaped_parts[c][0]);
        assert(runs[k + 3 * c + 1] == shaped_parts[c][1]);
        assert(runs[k + 3 * c + 2] == shaped_parts[c][2]);
        assert(heard[c].len() == dry[c].len());
    }
    bypass::lemma_a_settled_bypass_gives_one_side(
        arith,
        before.enabled,
        dry,
        wet,
        out,
        after.mix,
    );
}

/// While nothing fades, an independent channel hears the place that plays, and where a crossfade has
/// run out and only waits for the pen, the one that was faded in; linked channels do alike.
pub proof fn lemma_one_place_is_heard_while_nothing_fades<A>(
    stage: &IrStage,
    arith: A,
    ch: usize,
    dry: Seq<Single>,
    out: Seq<Single>,
    runs: Seq<Run>,
    all: Seq<Seq<Single>>,
    outs: Seq<Seq<Single>>,
    shared: Seq<Run>,
) where A: Fn(SampleOp) -> Single
    requires
        channel_heard(stage, ch, arith, dry, out, runs),
        linked_heard(stage, arith, all, outs, shared),
        stage.handover.crossfade matches Some(fade) ==> fade.remaining == 0,
    ensures
        ({
            let from = if stage.handover.crossfade is None {
                stage.handover.active as int
            } else {
                1 - stage.handover.active
            };
            &&& place_heard(stage.handover.slots@[from], ch, dry, out, runs)
            &&& shared_heard(stage.handover.slots@[from], all, outs, shared)
        }),
{
}

/// The bypass of every channel starts from where the stage's stands and heads for the wet side
/// exactly where the stage is on and, when the block is done, something plays or is being faded in.
pub proof fn lemma_the_ir_stage_blends_from_where_it_stands<A>(
    before: &IrStage,
    after: &IrStage,
    runs: Seq<Run>,
    arith: A,
    dry: Seq<Seq<Single>>,
    out: Seq<Seq<Single>>,
    n: int,
    ch: int,
    target: Single,
) where A: Fn(SampleOp) -> Single
    requires
        before.wf(),
        after.wf(),
        before.processed(after, runs, arith, dry, out, n),
        0 <= ch < dry.len() <= before.channels(),
        out[ch].len() > 0,
        target == Single::switch(
            after.enabled && (after.handover.slots@[after.handover.active as int] is Some || (
            after.handover.crossfade is Some && after.handover.slots@[1
                - after.handover.active] is Some)),
        ),
    ensures
        exists|wet: Single, mix: Single|
            {
                &&& call_ensures(arith, (SampleOp::Glide { mix: before.mix, target },), mix)
                &&& #[trigger] call_ensures(
                    arith,
                    (SampleOp::Blend { dry: dry[ch][0], wet, mix },),
                    out[ch][0],
                )
            },
{
    let (heard, heard_runs, wet, shaping) = choose|
        heard: Seq<Seq<Single>>,
        heard_runs: Seq<Run>,
        wet: Seq<Seq<Single>>,
        shaping: Seq<Run>,
    | #[trigger]
        before.processed_via(
            after,
            runs,
            arith,
            dry,
            out,
            n,
            heard,
            heard_runs,
            wet,
            shaping,
        );
    let ends = choose|ends: Seq<Single>| #[trigger]
        bypass::blended_to(arith, before.mix, after.mix_target, dry, wet, out, ends)
            && ends.last() == after.mix;
    assert(bypass::channel_blended(
        arith,
        before.mix,
        after.mix_target,
        dry[ch],
        wet[ch],
        out[ch],
        ends[ch],
    ));
    bypass::lemma_the_mix_moves_before_the_sample(
        arith,
        before.mix,
        after.mix_target,
        dry,
        wet,
        out,
        after.mix,
        ch,
    );
}

/// An impulse response that is handed over is faded in at once, and so is an emptied stage; the
/// settings stay, and the bypass moves only where nothing of it could be heard: where nothing
/// played or was fading, both filters were off and the level was neutral.
pub proof fn lemma_a_handover_fades_at_once(
    before: &IrStage,
    after: &IrStage,
    incoming: Option<Box<IrSlot>>,
)
    requires
        before.wf(),
        after.wf(),
        before.handover_begun(after, incoming),
    ensures
        after.handover.crossfade matches Some(fade) && fade.remaining == fade.total && fade.total
            == before.handover.crossfade_total_samples && fade.prime == 0,
        after.handover.slots@[1 - before.handover.active] == incoming,
        after.handover.slots@[before.handover.active as int] == before.handover.slots@[before.handover.active as int],
        after.enabled == before.enabled,
        after.independent == before.independent,
        after.level_db == before.level_db,
        after.low_cut_enabled == before.low_cut_enabled,
        after.low_cut_freq_hz == before.low_cut_freq_hz,
        after.high_cut_enabled == before.high_cut_enabled,
        after.high_cut_freq_hz == before.high_cut_freq_hz,
        after.mix == (if before.handover.slots@[before.handover.active as int] is None
            && before.handover.crossfade is None && !before.low_cut_enabled
            && !before.high_cut_enabled && before.level_db.same_number(Single::zero()) {
            Single::switch(before.enabled && incoming is Some)
        } else {
            before.mix
        }),
{
}

/// Every control of this stage moves its own figure to the value it is given and nothing else, and
/// the processors are told exactly of what has changed for them: a level of itself, and a change of
/// either figure of a cut of that cut's new design, a high-pass for the low cut and a low-pass for
/// the high cut at its own frequency where it is on and none where it is off, over one block. Any
/// other parameter of the registry leaves the stage alone and tells them nothing.
pub proof fn lemma_a_change_moves_one_figure(stage: &IrStage, i: int, value: Single)
    requires
        stage.wf(),
        0 <= i < registry::registry_entries().len(),
    ensures
        ({
            let key = registry::registry_entries()[i].key@;
            let change = ParamChange { id: registry::registry_entries()[i].id, value };
            let after = stage.changed_by(change);
            let told = after.update_for(change);
            let ramp_samples = stage.handover.prepared_for.max_block_size as u32;
            let audible = stage.handover.slots@[stage.handover.active as int] is Some || (
            stage.handover.crossfade is Some && stage.handover.slots@[1
                - stage.handover.active] is Some);
            let low = key == "ir.low_cut_enabled"@ || key == "ir.low_cut_freq_hz"@;
            let high = key == "ir.high_cut_enabled"@ || key == "ir.high_cut_freq_hz"@;
            &&& after.handover == stage.handover
            &&& after.mix == stage.mix
            &&& after.mix_target == Single::switch(after.enabled && audible)
            &&& key == "ir.enabled"@ ==> after.enabled == value.means_on()
            &&& key != "ir.enabled"@ ==> after.enabled == stage.enabled
            &&& key == "ir.level_db"@ ==> after.level_db == value
            &&& key != "ir.level_db"@ ==> after.level_db == stage.level_db
            &&& key == "ir.low_cut_enabled"@ ==> after.low_cut_enabled == value.means_on()
            &&& key != "ir.low_cut_enabled"@ ==> after.low_cut_enabled == stage.low_cut_enabled
            &&& key == "ir.low_cut_freq_hz"@ ==> after.low_cut_freq_hz == value
            &&& key != "ir.low_cut_freq_hz"@ ==> after.low_cut_freq_hz == stage.low_cut_freq_hz
            &&& key == "ir.high_cut_enabled"@ ==> after.high_cut_enabled == value.means_on()
            &&& key != "ir.high_cut_enabled"@ ==> after.high_cut_enabled == stage.high_cut_enabled
            &&& key == "ir.high_cut_freq_hz"@ ==> after.high_cut_freq_hz == value
            &&& key != "ir.high_cut_freq_hz"@ ==> after.high_cut_freq_hz == stage.high_cut_freq_hz
            &&& key == "global.independent_channels"@ ==> after.independent == value.means_on()
            &&& key != "global.independent_channels"@ ==> after.independent == stage.independent
            &&& key == "ir.level_db"@ ==> told == (IrUpdate::Level { target_db: value })
            &&& low ==> told == (IrUpdate::LowCut {
                target: if after.low_cut_enabled {
                    CutTarget::HighPass { freq_hz: after.low_cut_freq_hz }
                } else {
                    CutTarget::Identity
                },
                ramp_samples,
            })
            &&& high ==> told == (IrUpdate::HighCut {
                target: if after.high_cut_enabled {
                    CutTarget::LowPass { freq_hz: after.high_cut_freq_hz }
                } else {
                    CutTarget::Identity
                },
                ramp_samples,
            })
            &&& key != "ir.level_db"@ && !low && !high ==> told is Nothing
        }),
{
    identity::lemma_identities_are_told_apart();
    lemma_the_ir_stages_entries();
    let entries = registry::registry_entries();
    assert(entries[i].id == param::id_of(entries[i].key@));
}

proof fn lemma_the_ir_stages_entries()
    ensures
        registry::registry_entries()[10] == registry::ir_enabled(),
        registry::registry_entries()[10].key@ == "ir.enabled"@,
        registry::registry_entries()[11] == registry::ir_level_db(),
        registry::registry_entries()[11].key@ == "ir.level_db"@,
        registry::registry_entries()[12] == registry::ir_low_cut_enabled(),
        registry::registry_entries()[12].key@ == "ir.low_cut_enabled"@,
        registry::registry_entries()[13] == registry::ir_low_cut_freq_hz(),
        registry::registry_entries()[13].key@ == "ir.low_cut_freq_hz"@,
        registry::registry_entries()[14] == registry::ir_high_cut_enabled(),
        registry::registry_entries()[14].key@ == "ir.high_cut_enabled"@,
        registry::registry_entries()[15] == registry::ir_high_cut_freq_hz(),
        registry::registry_entries()[15].key@ == "ir.high_cut_freq_hz"@,
        registry::registry_entries()[31] == registry::global_independent_channels(),
        registry::registry_entries()[31].key@ == "global.independent_channels"@,
{
    reveal(registry::registry_entries);
}

/// A fresh stage is as if every parameter had just been set to its default: setting any of them to
/// it changes nothing.
pub proof fn lemma_a_fresh_ir_stage_is_at_its_defaults(stage: &IrStage, i: int)
    requires
        stage.wf(),
        stage.fresh(),
        0 <= i < registry::registry_entries().len(),
    ensures
        stage.changed_by(
            ParamChange {
                id: registry::registry_entries()[i].id,
                value: registry::registry_entries()[i].kind.default_spec(),
            },
        ) == *stage,
{
    identity::lemma_identities_are_told_apart();
    lemma_the_ir_stages_entries();
    let entries = registry::registry_entries();
    lemma_a_change_moves_one_figure(stage, i, entries[i].kind.default_spec());
}

/// What is reported says of the stage what is so: that an impulse response plays, and that a
/// handover is under way, each under its own identity.
pub proof fn lemma_the_ir_stage_reports_what_is_so(stage: &IrStage)
    ensures
        stage.reported().len() == 2,
        stage.reported()[0].id == param::id_of("telemetry.ir.loaded"@).value,
        stage.reported()[0].value.means_on() == (
        stage.handover.slots@[stage.handover.active as int] is Some),
        stage.reported()[1].id == param::id_of("telemetry.ir.handover_active"@).value,
        stage.reported()[1].value.means_on() == (stage.handover.crossfade is Some),
{
}

/// A reset clears every channel's two cuts and nothing else; the level ramps stay where they are.
pub proof fn lemma_a_reset_clears_both_cuts(stage: &IrStage, op: BlockOp)
    ensures
        stage.cleared_by_reset().contains(op) <==> ((op matches BlockOp::LowCut { channel }
            && channel < stage.handover.prepared_for.channel_config.outputs()) || (
        op matches BlockOp::HighCut { channel } && channel
            < stage.handover.prepared_for.channel_config.outputs())),
{
    let cleared = stage.cleared_by_reset();
    let n = stage.channels() as int;
    if let BlockOp::LowCut { channel } = op {
        if channel < n {
            assert(cleared[channel as int] == op);
        }
    }
    if let BlockOp::HighCut { channel } = op {
        if channel < n {
            assert(cleared[n + channel] == op);
        }
    }
}

/// An offered impulse response is faded in, parked or left on offer, and nothing else ever happens
/// to it: one prepared for this very chain stands by where the pen is free and stays on offer where
/// it is not; one prepared for other figures goes to the pen with them, and the chain plays on. Any
/// other offer is left as it is.
pub proof fn lemma_an_offer_is_faded_in_parked_or_left(
    before: &IrStage,
    offer: Option<Resource>,
    after: &IrStage,
    left: Option<Resource>,
)
    requires
        before.wf(),
        before.can_take(offer),
        before.accepted(offer, after, left),
    ensures
        !(offer matches Some(r) && r is Ir) ==> left == offer && *after == *before,
        offer matches Some(Resource::Ir(slot, ctx)) ==> {
            let ours = ctx == before.handover.prepared_for;
            let active = before.handover.active as int;
            &&& ours && before.handover.retired is Some ==> left == offer && *after == *before
            &&& ours && before.handover.retired is None ==> {
                &&& left is None
                &&& after.handover.slots@[1 - active] == Some(slot)
                &&& after.handover.slots@[active] == before.handover.slots@[active]
                &&& after.handover.crossfade is Some
            }
            &&& !ours ==> {
                &&& left is None
                &&& after.handover.retired matches Some(parked)
                &&& parked.slot == slot
                &&& parked.ctx == ctx
                &&& after.handover.slots == before.handover.slots
                &&& after.handover.active == before.handover.active
                &&& after.handover.crossfade == before.handover.crossfade
                &&& after.mix == before.mix
                &&& after.mix_target == before.mix_target
            }
        },
{
}

/// Whatever plays or fades, once the bypass has arrived on the wet side every channel carries what
/// its level gave behind its two cuts, and those ran on what was rendered: channel by channel where
/// channels are independent, and for all of them at once where they are linked.
pub proof fn lemma_every_channel_carries_what_was_rendered<A>(
    before: &IrStage,
    after: &IrStage,
    runs: Seq<Run>,
    arith: A,
    dry: Seq<Seq<Single>>,
    out: Seq<Seq<Single>>,
    n: int,
) where A: Fn(SampleOp) -> Single
    requires
        before.wf(),
        before.processed(after, runs, arith, dry, out, n),
        bypass::settles(arith),
        before.mix == Single::one(),
        after.mix_target == Single::one(),
        0 < dry.len() <= before.channels(),
        forall|c: int| 0 <= c < dry.len() ==> (#[trigger] dry[c]).len() == dry[0].len(),
        forall|i: int|
            0 <= i < runs.len() && (#[trigger] runs[i]) is Block ==> runs[i]->Block_output.len()
                == runs[i]->Block_input.len(),
    ensures
        out.len() == dry.len(),
        after.mix == Single::one(),
        before.independent && dry.len() > 1 ==> exists|heard: Seq<Seq<Single>>, parts: Seq<
            Seq<Run>,
        >, shapes: Seq<Seq<Run>>|
            {
                &&& #[trigger] each_heard(before, arith, dry, heard, parts)
                &&& #[trigger] each_shaped(heard, out, shapes)
                &&& runs == dsp::in_turn(parts) + dsp::in_turn(shapes)
            },
        !before.independent || dry.len() == 1 ==> exists|
            heard: Seq<Seq<Single>>,
            first: Seq<Run>,
            shapes: Seq<Seq<Run>>,
        |
            {
                &&& #[trigger] linked_heard(before, arith, dry, heard, first)
                &&& #[trigger] each_shaped(heard, out, shapes)
                &&& runs == first + dsp::in_turn(shapes)
            },
{
    let (heard, heard_runs, wet, shaping) = choose|
        heard: Seq<Seq<Single>>,
        heard_runs: Seq<Run>,
        wet: Seq<Seq<Single>>,
        shaping: Seq<Run>,
    | #[trigger]
        before.processed_via(
            after,
            runs,
            arith,
            dry,
            out,
            n,
            heard,
            heard_runs,
            wet,
            shaping,
        );
    let shapes = choose|parts: Seq<Seq<Run>>| #[trigger]
        each_shaped(heard, wet, parts) && shaping == dsp::in_turn(parts);
    reveal_with_fuel(dsp::in_turn, 3);
    if dry.len() == 2 {
        assert(shapes.drop_last().last() == shapes[0]);
        assert(shaping =~= shapes[0] + shapes[1]);
    } else {
        assert(shaping =~= shapes[0]);
    }
    let k = heard_runs.len() as int;
    assert(channel_shaped(0, heard[0], wet[0], shapes[0]));
    lemma_a_channel_is_cut_low_then_high_then_levelled(0, heard[0], wet[0], shapes[0]);
    assert forall|i: int| 0 <= i < 3 implies #[trigger] runs[k + i] == shapes[0][i] by {}
    if dry.len() == 2 {
        assert(channel_shaped(1, heard[1], wet[1], shapes[1]));
        lemma_a_channel_is_cut_low_then_high_then_levelled(1, heard[1], wet[1], shapes[1]);
        assert forall|i: int| 0 <= i < 3 implies #[trigger] runs[k + 3 + i] == shapes[1][i] by {}
    }
    assert forall|c: int| 0 <= c < heard.len() implies (#[trigger] heard[c]).len()
        == dry[c].len() by {
        lemma_rendering_keeps_the_length(before, arith, dry, heard, heard_runs, c);
    }
    assert forall|c: int| 0 <= c < wet.len() implies (#[trigger] dry[c]).len() == wet[c].len() by {
        assert(runs[k + 3 * c + 0] == shapes[c][0]);
        assert(runs[k + 3 * c + 1] == shapes[c][1]);
        assert(runs[k + 3 * c + 2] == shapes[c][2]);
        assert(heard[c].len() == dry[c].len());
    }
    bypass::lemma_a_settled_bypass_gives_one_side(arith, true, dry, wet, out, after.mix);
}

proof fn lemma_rendering_keeps_the_length<A>(
    before: &IrStage,
    arith: A,
    dry: Seq<Seq<Single>>,
    heard: Seq<Seq<Single>>,
    runs: Seq<Run>,
    c: int,
) where A: Fn(SampleOp) -> Single
    requires
        heard.len() == dry.len(),
        0 <= c < heard.len() <= 2,
        dry[c].len() == dry[0].len(),
        if before.independent && dry.len() > 1 {
            exists|parts: Seq<Seq<Run>>| #[trigger]
                each_heard(before, arith, dry, heard, parts) && runs == dsp::in_turn(parts)
        } else {
            linked_heard(before, arith, dry, heard, runs)
        },
    ensures
        heard[c].len() == dry[c].len(),
{
    if before.independent && dry.len() > 1 {
        let parts = choose|parts: Seq<Seq<Run>>| #[trigger]
            each_heard(before, arith, dry, heard, parts) && runs == dsp::in_turn(parts);
        assert(channel_heard(before, c as usize, arith, dry[c], heard[c], parts[c]));
    } else {
        match before.handover.crossfade {
            None => {
                if before.handover.playing() is Some {
                    let (first, second) = choose|first: Seq<Single>, second: Seq<Single>| #[trigger]
                        place_gives(before.handover.playing(), 0, dry[0], first, second, runs)
                            && spread(
                            produced_by(before.handover.playing()),
                            first,
                            second,
                            dry.len(),
                            heard,
                        );
                    assert(heard[c] == picked(
                        c,
                        produced_by(before.handover.playing()),
                        first,
                        second,
                    ));
                }
            },
            Some(fade) => {
                if fade.remaining == 0 {
                    if before.handover.standby() is Some {
                        let (first, second) = choose|first: Seq<Single>, second: Seq<Single>|
                            #[trigger]
                            place_gives(before.handover.standby(), 0, dry[0], first, second, runs)
                                && spread(
                                produced_by(before.handover.standby()),
                                first,
                                second,
                                dry.len(),
                                heard,
                            );
                        assert(heard[c] == picked(
                            c,
                            produced_by(before.handover.standby()),
                            first,
                            second,
                        ));
                    }
                } else {
                    let (outgoing, incoming) = choose|
                        outgoing: (Seq<Single>, Seq<Single>, Seq<Run>),
                        incoming: (Seq<Single>, Seq<Single>, Seq<Run>),
                    | #[trigger]
                        both_shared(before, fade, arith, dry, heard, runs, outgoing, incoming);
                    assert(fade.faded(
                        arith,
                        picked(
                            c,
                            produced_by(before.handover.playing()),
                            outgoing.0,
                            outgoing.1,
                        ),
                        picked(
                            c,
                            produced_by(before.handover.standby()),
                            incoming.0,
                            incoming.1,
                        ),
                        heard[c],
                    ));
                }
            },
        }
    }
}

/// Settings that are the same are the same in every control.
pub proof fn lemma_the_same_settings_agree_in_every_control(a: &IrStage, b: &IrStage)
    ensures
        a.same_settings(b) <==> a.enabled == b.enabled && a.independent == b.independent
            && a.level_db == b.level_db && a.low_cut_enabled == b.low_cut_enabled
            && a.low_cut_freq_hz == b.low_cut_freq_hz && a.high_cut_enabled == b.high_cut_enabled
            && a.high_cut_freq_hz == b.high_cut_freq_hz,
{
}

/// What is in the pen is never lost: it is offered to the return ring, whole and once, with the
/// figures it was prepared for; where the ring takes it, it has gone there and the pen is free, and
/// where the ring is full it is still in the pen. Nothing else changes.
pub proof fn lemma_what_is_in_the_pen_is_never_lost(
    before: &IrStage,
    after: &IrStage,
    answered: Seq<(Resource, bool)>,
    answered_after: Seq<(Resource, bool)>,
)
    requires
        before.returned(after, answered, answered_after),
    ensures
        before.handover.retired is None ==> answered_after.len() == answered.len(),
        before.handover.retired matches Some(parked) ==> {
            let (offered, taken) = answered_after.last();
            &&& answered_after.len() == answered.len() + 1
            &&& answered_after.drop_last() == answered
            &&& offered == Resource::Ir(parked.slot, parked.ctx)
            &&& taken ==> after.handover.retired is None && ring::resources_sent(answered_after)
                == ring::resources_sent(answered).push(Resource::Ir(parked.slot, parked.ctx))
            &&& !taken ==> after.handover.retired == Some(parked) && ring::resources_sent(
                answered_after,
            ) == ring::resources_sent(answered)
        },
        after.handover.slots == before.handover.slots,
        after.handover.active == before.handover.active,
        after.handover.crossfade == before.handover.crossfade,
        after.mix == before.mix,
        after.mix_target == before.mix_target,
        after.same_settings(before),
{
    if before.handover.retired is Some {
        assert(answered_after.drop_last() =~= answered);
    }
}

/// Emptying the stage fades what plays into nothing and parks what stood by; while the pen is
/// occupied it does nothing.
pub proof fn lemma_an_emptied_stage_fades_into_nothing(before: &IrStage, after: &IrStage)
    requires
        before.wf(),
        after.wf(),
        before.unloaded(after),
    ensures
        before.handover.retired is Some ==> *after == *before,
        before.handover.retired is None ==> {
            let active = before.handover.active as int;
            &&& after.handover.slots@[active] == before.handover.slots@[active]
            &&& after.handover.slots@[1 - active] is None
            &&& after.handover.crossfade matches Some(fade)
            &&& fade.remaining == before.handover.crossfade_total_samples
            &&& fade.prime == 0
            &&& before.handover.slots@[1 - active] matches Some(slot) ==> (
            after.handover.retired matches Some(parked) && parked.slot == slot)
            &&& before.handover.slots@[1 - active] is None ==> after.handover.retired is None
            &&& after.mix_target == Single::switch(
                before.enabled && before.handover.slots@[active] is Some,
            )
        },
{
}

/// The tail of the stage is as long as the impulse response that plays, and none where nothing
/// plays, whatever stands by.
pub proof fn lemma_the_tail_is_as_long_as_what_plays(stage: &IrStage)
    ensures
        ({
            let playing = stage.handover.slots@[stage.handover.active as int];
            &&& playing is None ==> stage.tail() == 0
            &&& playing matches Some(slot) ==> (slot.ir.len_samples <= u32::MAX ==> stage.tail()
                == slot.ir.len_samples)
        }),
{
}

} // verus!
