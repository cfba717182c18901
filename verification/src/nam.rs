//! The model stage: a loaded model, the glitch-free handover to its successor, and the bypass.

use vstd::multiset::Multiset;
use vstd::prelude::*;

use crate::dsp;
use crate::bypass;
use crate::descriptor::{continuous_default, stepped_default_on};
use crate::dsp::{BlockOp, Convolve, Rack, Run, SampleOp};
use crate::command::RetireSink;
use crate::handover;
use crate::handover::{Crossfade, Handover, Parked};
use crate::identity;
use crate::param;
use crate::param::{ParamChange, ParamId, TelemetryEntry};
use crate::prepare::{PrepareContext, SampleRate};
use crate::registry;
use crate::resample;
use crate::resample::SlotResampler;
use crate::resource::{Resource, ResourceKind};
use crate::ring;
use crate::single::Single;
use crate::stage_io::StageIo;

verus! {

/// A loaded model as the shell describes it.
#[derive(Debug, Clone, Copy, PartialEq, Eq, Structural)]
pub struct ModelInfo {
    /// What the shell finds the model by.
    pub handle: u64,
    pub sample_rate: SampleRate,
    /// The gain in decibels that brings the model's declared loudness to the target; none where it
    /// declares none.
    pub loudness_correction_db: Option<Single>,
}

/// One instance of a model, prepared for every channel of one chain.
pub struct NamSlot {
    pub handle: u64,
    /// The queues of each channel, where the model runs at a rate of its own.
    pub resample: Vec<Option<SlotResampler>>,
    pub base_normalize_gain_db: Single,
    /// The longest block the model's own state is handed at once.
    pub state_block: usize,
}

/// The rates are equal, or the internal blocks between them are short enough.
pub open spec fn rates_fit(engine_hz: int, model_hz: int) -> bool {
    engine_hz != model_hz ==> {
        &&& resample::engine_block_frames(engine_hz, model_hz) <= resample::MAX_BLOCK_FRAMES
        &&& resample::model_block_frames(engine_hz, model_hz) <= resample::MAX_BLOCK_FRAMES
    }
}

/// What the model and its loudness ramp make of one channel's input, by way of `raw` and `target`:
/// the model, directly or by its internal blocks, and then the ramp, and nothing else.
pub open spec fn channel_ran_via<A>(
    handle: u64,
    base_db: Single,
    before: Option<SlotResampler>,
    after: Option<SlotResampler>,
    ch: usize,
    normalize: Option<Single>,
    arith: A,
    input: Seq<Single>,
    wet: Seq<Single>,
    runs: Seq<Run>,
    model: Seq<Run>,
    raw: Seq<Single>,
    target: Single,
) -> bool where A: Fn(SampleOp) -> Single {
    &&& raw.len() == input.len()
    &&& wet.len() == input.len()
    &&& match (before, after) {
        (None, None) => model == seq![
            Run::Block { op: BlockOp::Model { handle, channel: ch }, input, output: raw },
        ],
        (Some(b), Some(a)) => b.processed(
            &a,
            BlockOp::ResampledModel { handle, channel: ch },
            input,
            raw,
            model,
        ),
        _ => false,
    }
    &&& match normalize {
        Some(offset) => call_ensures(
            arith,
            (SampleOp::Sum { a: base_db, b: offset },),
            target,
        ),
        None => target == Single::zero(),
    }
    &&& runs == model.push(
        Run::Block {
            op: BlockOp::NormalizeGain { handle, channel: ch, target_db: target },
            input: raw,
            output: wet,
        },
    )
}

/// The model runs on one channel's input, directly or through its resampler, and its loudness ramp
/// heads for the model's correction plus the user's offset, or for zero where normalization is off.
pub open spec fn channel_ran<A>(
    handle: u64,
    base_db: Single,
    before: Option<SlotResampler>,
    after: Option<SlotResampler>,
    ch: usize,
    normalize: Option<Single>,
    arith: A,
    input: Seq<Single>,
    wet: Seq<Single>,
    runs: Seq<Run>,
) -> bool where A: Fn(SampleOp) -> Single {
    exists|model: Seq<Run>, raw: Seq<Single>, target: Single| #[trigger]
        channel_ran_via(
            handle,
            base_db,
            before,
            after,
            ch,
            normalize,
            arith,
            input,
            wet,
            runs,
            model,
            raw,
            target,
        )
}

impl NamSlot {
    /// One entry for each of `channels` channels: either none of them resamples, or all do, by
    /// the same figures.
    pub open spec fn wf(&self, channels: nat) -> bool {
        &&& channels > 0
        &&& self.resample@.len() == channels
        &&& forall|ch: int|
            #![trigger self.resample@[ch]]
            0 <= ch < channels ==> {
                &&& self.resample@[ch] is Some <==> self.resample@[0] is Some
                &&& self.resample@[ch] matches Some(r) ==> r.wf() && r.same_sizes(
                    &self.resample@[0]->0,
                )
            }
    }

    pub open spec fn latency(&self) -> u32 {
        match self.resample@[0] {
            Some(r) => r.latency_samples,
            None => 0,
        }
    }

    /// The same instance, whatever its queues hold.
    pub open spec fn same_instance(&self, other: &NamSlot) -> bool {
        &&& self.handle == other.handle
        &&& self.base_normalize_gain_db == other.base_normalize_gain_db
        &&& self.state_block == other.state_block
        &&& self.resample@.len() == other.resample@.len()
    }

    /// A fresh instance of a model for so many channels: it resamples exactly where the model has a
    /// rate of its own, with primed queues.
    pub open spec fn made_for(
        &self,
        model: ModelInfo,
        engine_rate: SampleRate,
        max_block_size: usize,
        channels: nat,
    ) -> bool {
        let engine_hz = engine_rate.hz as int;
        let model_hz = model.sample_rate.hz as int;
        &&& self.wf(channels)
        &&& self.handle == model.handle
        &&& self.base_normalize_gain_db == (match model.loudness_correction_db {
            Some(db) => db,
            None => Single::zero(),
        })
        &&& self.primed()
        &&& if model_hz == engine_hz {
            &&& self.resample@[0] is None
            &&& self.state_block == max_block_size
        } else {
            &&& self.resample@[0] matches Some(r)
            &&& r.engine_block == resample::engine_block_frames(engine_hz, model_hz)
            &&& r.model_block == resample::model_block_frames(engine_hz, model_hz)
            &&& r.latency_samples == resample::round_trip_latency(engine_hz, model_hz)
            &&& self.state_block == r.model_block
        }
    }

    pub fn new(
        model: ModelInfo,
        engine_rate: SampleRate,
        max_block_size: usize,
        channel_count: usize,
    ) -> (s: NamSlot)
        requires
            engine_rate.wf(),
            model.sample_rate.wf(),
            channel_count > 0,
            rates_fit(engine_rate.hz as int, model.sample_rate.hz as int),
        ensures
            s.made_for(model, engine_rate, max_block_size, channel_count as nat),
    {
        let base_normalize_gain_db: Single = match model.loudness_correction_db {
            Some(db) => db,
            None => Single::zero(),
        };
        let direct: bool = model.sample_rate.hz == engine_rate.hz;
        let mut resample: Vec<Option<SlotResampler>> = Vec::new();
        let mut state_block: usize = max_block_size;
        let mut ch: usize = 0;
        while ch < channel_count
            invariant
                engine_rate.wf(),
                model.sample_rate.wf(),
                rates_fit(engine_rate.hz as int, model.sample_rate.hz as int),
                direct == (model.sample_rate == engine_rate),
                ch <= channel_count,
                resample@.len() == ch,
                direct ==> state_block == max_block_size,
                !direct && ch > 0 ==> state_block == resample::model_block_frames(
                    engine_rate.hz as int,
                    model.sample_rate.hz as int,
                ),
                forall|c: int|
                    #![trigger resample@[c]]
                    0 <= c < ch ==> if direct {
                        resample@[c] is None
                    } else {
                        &&& resample@[c] matches Some(r)
                        &&& r.wf()
                        &&& r.primed()
                        &&& r.engine_block == resample::engine_block_frames(
                            engine_rate.hz as int,
                            model.sample_rate.hz as int,
                        )
                        &&& r.model_block == resample::model_block_frames(
                            engine_rate.hz as int,
                            model.sample_rate.hz as int,
                        )
                        &&& r.latency_samples == resample::round_trip_latency(
                            engine_rate.hz as int,
                            model.sample_rate.hz as int,
                        )
                    },
            decreases channel_count - ch,
        {
            if direct {
                resample.push(None);
            } else {
                let r = SlotResampler::new(engine_rate, model.sample_rate);
                state_block = r.model_block;
                resample.push(Some(r));
            }
            ch += 1;
        }
        NamSlot { handle: model.handle, resample, base_normalize_gain_db, state_block }
    }

    pub fn latency_samples(&self) -> (n: u32)
        requires
            self.resample@.len() > 0,
        ensures
            n == self.latency(),
    {
        match &self.resample[0] {
            Some(r) => r.latency_samples,
            None => 0,
        }
    }

    /// Every channel's queues hold nothing but their priming silence.
    pub open spec fn primed(&self) -> bool {
        forall|ch: int|
            #![trigger self.resample@[ch]]
            0 <= ch < self.resample@.len() ==> (self.resample@[ch] matches Some(r) ==> r.primed())
    }

    /// Empties and primes every channel's queues.
    pub fn reset(&mut self)
        requires
            old(self).wf(old(self).resample@.len()),
        ensures
            final(self).wf(old(self).resample@.len()),
            final(self).same_instance(old(self)),
            final(self).latency() == old(self).latency(),
            final(self).primed(),
    {
        let count: usize = self.resample.len();
        let mut ch: usize = 0;
        while ch < count
            invariant
                ch <= count == old(self).resample@.len(),
                old(self).wf(count as nat),
                self.wf(count as nat),
                self.same_instance(old(self)),
                self.latency() == old(self).latency(),
                forall|c: int|
                    #![trigger self.resample@[c]]
                    0 <= c < ch ==> (self.resample@[c] matches Some(r) ==> r.primed()),
            decreases count - ch,
        {
            match &mut self.resample[ch] {
                Some(r) => {
                    r.prime();
                },
                None => {},
            }
            ch += 1;
        }
    }

    /// The resamplers of every channel, where the model runs at a rate of its own.
    pub open spec fn resamplers(&self) -> Seq<BlockOp> {
        if self.resample@[0] is Some {
            dsp::of_every_channel(
                BlockOp::ResampledModel { handle: self.handle, channel: 0 },
                self.resample@.len(),
            )
        } else {
            Seq::empty()
        }
    }

    fn list_resamplers(&self, list: &mut Vec<BlockOp>)
        requires
            self.resample@.len() > 0,
        ensures
            final(list)@ == old(list)@ + self.resamplers(),
    {
        if self.resample[0].is_some() {
            let op = BlockOp::ResampledModel { handle: self.handle, channel: 0 };
            dsp::list_every_channel(op, self.resample.len(), list);
        } else {
            proof {
                assert(list@ + Seq::empty() =~= list@);
            }
        }
    }

    /// Runs the model and its loudness ramp on one channel.
    pub fn process_wet<S, B, C, A>(
        &mut self,
        ch: usize,
        input: &Vec<Single>,
        normalize: Option<Single>,
        rack: &mut Rack<S, B, C>,
        arith: A,
    ) -> (wet: Vec<Single>) where
        B: Fn(BlockOp, Vec<Single>, S) -> (Vec<Single>, S),
        C: Fn(Convolve, Vec<Single>, S) -> (Vec<Single>, Vec<Single>, S),
        A: Fn(SampleOp) -> Single,

        requires
            old(self).wf(old(self).resample@.len()),
            ch < old(self).resample@.len(),
            old(rack).wf(),
            dsp::computes(arith),
        ensures
            final(self).wf(old(self).resample@.len()),
            final(self).same_instance(old(self)),
            forall|c: int|
                0 <= c < old(self).resample@.len() && c != ch ==> #[trigger] final(self).resample@[c] == old(
                    self,
                ).resample@[c],
            final(rack).went_on(old(rack)),
            channel_ran(
                old(self).handle,
                old(self).base_normalize_gain_db,
                old(self).resample@[ch as int],
                final(self).resample@[ch as int],
                ch,
                normalize,
                arith,
                input@,
                wet@,
                final(rack).since(old(rack)),
            ),
    {
        let handle: u64 = self.handle;
        let mut raw: Vec<Single>;
        match &mut self.resample[ch] {
            Some(r) => {
                raw = r.process(rack, BlockOp::ResampledModel { handle, channel: ch }, input);
            },
            None => {
                let copy: Vec<Single> = dsp::copy_samples(input);
                raw = rack.run(BlockOp::Model { handle, channel: ch }, copy);
            },
        }
        let target: Single = match normalize {
            Some(offset) => arith(SampleOp::Sum { a: self.base_normalize_gain_db, b: offset }),
            None => Single::zero(),
        };
        let ghost raw_value = raw;
        let ghost earlier = *rack;
        let wet: Vec<Single> = rack.run(
            BlockOp::NormalizeGain { handle, channel: ch, target_db: target },
            raw,
        );
        proof {
            let model = earlier.since(old(rack));
            let gain = Run::Block {
                op: BlockOp::NormalizeGain { handle, channel: ch, target_db: target },
                input: raw_value@,
                output: wet@,
            };
            Rack::lemma_went_on(old(rack), &earlier, rack);
            assert(model + seq![gain] =~= model.push(gain));
            assert(channel_ran_via(
                old(self).handle,
                old(self).base_normalize_gain_db,
                old(self).resample@[ch as int],
                self.resample@[ch as int],
                ch,
                normalize,
                arith,
                input@,
                wet@,
                rack.since(old(rack)),
                model,
                raw_value@,
                target,
            ));
        }
        wet
    }
}

/// One side of a crossfade on one channel: a model runs, and an empty place passes the input on
/// and runs nothing.
pub open spec fn side_heard<A>(
    before: Option<Box<NamSlot>>,
    after: Option<Box<NamSlot>>,
    ch: usize,
    normalize: Option<Single>,
    arith: A,
    dry: Seq<Single>,
    wet: Seq<Single>,
    runs: Seq<Run>,
) -> bool where A: Fn(SampleOp) -> Single {
    match (before, after) {
        (None, None) => wet == dry && runs == Seq::<Run>::empty(),
        (Some(b), Some(a)) => channel_ran(
            b.handle,
            b.base_normalize_gain_db,
            b.resample@[ch as int],
            a.resample@[ch as int],
            ch,
            normalize,
            arith,
            dry,
            wet,
            runs,
        ),
        _ => false,
    }
}

/// Both sides of a crossfade on one channel, the outgoing one first, blended.
pub open spec fn both_heard<A>(
    before: &NamStage,
    after: &NamStage,
    fade: Crossfade,
    ch: usize,
    arith: A,
    dry: Seq<Single>,
    out: Seq<Single>,
    runs: Seq<Run>,
    outgoing: (Seq<Single>, Seq<Run>),
    incoming: (Seq<Single>, Seq<Run>),
) -> bool where A: Fn(SampleOp) -> Single {
    &&& outgoing.0.len() == dry.len()
    &&& incoming.0.len() == dry.len()
    &&& side_heard(
        before.handover.playing(),
        after.handover.playing(),
        ch,
        before.normalize(),
        arith,
        dry,
        outgoing.0,
        outgoing.1,
    )
    &&& side_heard(
        before.handover.standby(),
        after.handover.standby(),
        ch,
        before.normalize(),
        arith,
        dry,
        incoming.0,
        incoming.1,
    )
    &&& runs == outgoing.1 + incoming.1
    &&& fade.faded(arith, outgoing.0, incoming.0, out)
}

/// What one channel sounds like before the bypass, and all that ran for it: the playing model; or
/// the incoming one, where a crossfade has run out and only waits for the pen; or the two, blended.
pub open spec fn channel_heard<A>(
    before: &NamStage,
    after: &NamStage,
    ch: usize,
    arith: A,
    dry: Seq<Single>,
    out: Seq<Single>,
    runs: Seq<Run>,
) -> bool where A: Fn(SampleOp) -> Single {
    match before.handover.crossfade {
        None => side_heard(
            before.handover.playing(),
            after.handover.playing(),
            ch,
            before.normalize(),
            arith,
            dry,
            out,
            runs,
        ),
        Some(fade) => if fade.remaining == 0 {
            side_heard(
                before.handover.standby(),
                after.handover.standby(),
                ch,
                before.normalize(),
                arith,
                dry,
                out,
                runs,
            )
        } else {
            exists|outgoing: (Seq<Single>, Seq<Run>), incoming: (Seq<Single>, Seq<Run>)| #[trigger]
                both_heard(
                    before,
                    after,
                    fade,
                    ch,
                    arith,
                    dry,
                    out,
                    runs,
                    outgoing,
                    incoming,
                )
        },
    }
}

/// The resamplers in one place, if there are any.
pub open spec fn resamplers_of(place: Option<Box<NamSlot>>) -> Seq<BlockOp> {
    match place {
        Some(slot) => slot.resamplers(),
        None => Seq::empty(),
    }
}

/// The same instance in the same place, or the same empty place.
pub open spec fn same_place(before: Option<Box<NamSlot>>, after: Option<Box<NamSlot>>) -> bool {
    match (before, after) {
        (None, None) => true,
        (Some(b), Some(a)) => a.same_instance(&*b),
        _ => false,
    }
}

/// The queues of one channel are as they were.
pub open spec fn channel_untouched(
    before: Option<Box<NamSlot>>,
    after: Option<Box<NamSlot>>,
    ch: int,
) -> bool {
    match (before, after) {
        (Some(b), Some(a)) => a.resample@[ch] == b.resample@[ch],
        _ => true,
    }
}

pub struct NamStage {
    pub handover: Handover<NamSlot>,
    pub enabled: bool,
    pub normalize_enabled: bool,
    pub normalize_offset_db: Single,
    pub independent: bool,
    pub mix: Single,
    pub mix_target: Single,
}

impl NamStage {
    /// There is something to hear: a model plays, or one is being faded in.
    pub open spec fn engaged(&self) -> bool {
        ||| self.handover.playing() is Some
        ||| (self.handover.crossfade is Some && self.handover.standby() is Some)
    }

    /// The bypass heads for the wet side exactly while the stage is on and there is something to
    /// hear.
    pub open spec fn mix_target_spec(&self) -> Single {
        Single::switch(self.enabled && self.engaged())
    }

    /// Every control at its default.
    pub open spec fn fresh(&self) -> bool {
        &&& self.enabled == registry::nam_enabled().kind.default_spec().means_on()
        &&& self.normalize_enabled == registry::nam_normalize_enabled().kind.default_spec().means_on()
        &&& self.normalize_offset_db == registry::nam_normalize_offset_db().kind.default_spec()
        &&& self.independent == registry::global_independent_channels().kind.default_spec().means_on()
    }

    pub open spec fn channels(&self) -> nat {
        self.handover.prepared_for.channels()
    }

    pub open spec fn places_wf(&self) -> bool {
        &&& self.handover.wf()
        &&& self.handover.playing() matches Some(s) ==> s.wf(self.channels())
        &&& self.handover.standby() matches Some(s) ==> s.wf(self.channels())
    }

    pub open spec fn wf(&self) -> bool {
        &&& self.places_wf()
        &&& self.handover.prepared_for.wf()
        &&& self.mix_target == self.mix_target_spec()
    }

    /// The offset that loudness normalization adds, where it is on.
    pub open spec fn normalize(&self) -> Option<Single> {
        if self.normalize_enabled {
            Some(self.normalize_offset_db)
        } else {
            None
        }
    }

    pub open spec fn same_settings(&self, other: &NamStage) -> bool {
        &&& self.enabled == other.enabled
        &&& self.normalize_enabled == other.normalize_enabled
        &&& self.normalize_offset_db == other.normalize_offset_db
        &&& self.independent == other.independent
    }

    /// Only the queues inside the two places may differ.
    pub open spec fn only_queues_moved(&self, after: &NamStage) -> bool {
        &&& after.same_settings(self)
        &&& after.mix == self.mix
        &&& after.mix_target == self.mix_target
        &&& after.handover.same_frame(&self.handover)
        &&& after.handover.active == self.handover.active
        &&& after.handover.crossfade == self.handover.crossfade
        &&& after.handover.retired == self.handover.retired
        &&& same_place(self.handover.playing(), after.handover.playing())
        &&& same_place(self.handover.standby(), after.handover.standby())
    }

    pub open spec fn queues_untouched(&self, after: &NamStage, ch: int) -> bool {
        &&& channel_untouched(self.handover.playing(), after.handover.playing(), ch)
        &&& channel_untouched(self.handover.standby(), after.handover.standby(), ch)
    }

    fn recompute_mix_target(&mut self)
        requires
            old(self).handover.wf(),
        ensures
            *final(self) == (NamStage { mix_target: old(self).mix_target_spec(), ..*old(self) }),
    {
        let active: usize = self.handover.active;
        let engaged: bool = self.handover.slots[active].is_some() || (
        self.handover.crossfade.is_some() && self.handover.slots[1 - active].is_some());
        self.mix_target = Single::switch(self.enabled && engaged);
    }

    /// Runs one place on one channel.
    fn run_place<S, B, C, A>(
        &mut self,
        place: usize,
        ch: usize,
        dry: &Vec<Single>,
        rack: &mut Rack<S, B, C>,
        arith: A,
    ) -> (wet: Vec<Single>) where
        B: Fn(BlockOp, Vec<Single>, S) -> (Vec<Single>, S),
        C: Fn(Convolve, Vec<Single>, S) -> (Vec<Single>, Vec<Single>, S),
        A: Fn(SampleOp) -> Single + Copy,

        requires
            old(self).places_wf(),
            place < 2,
            ch < old(self).channels(),
            old(rack).wf(),
            dsp::computes(arith),
        ensures
            final(self).places_wf(),
            old(self).only_queues_moved(final(self)),
            wet@.len() == dry@.len(),
            final(self).handover.slots@[1 - place] == old(self).handover.slots@[1 - place],
            final(rack).went_on(old(rack)),
            side_heard(
                old(self).handover.slots@[place as int],
                final(self).handover.slots@[place as int],
                ch,
                old(self).normalize(),
                arith,
                dry@,
                wet@,
                final(rack).since(old(rack)),
            ),
            forall|c: int|
                0 <= c < old(self).channels() && c != ch ==> old(self).queues_untouched(
                    final(self),
                    c,
                ),
    {
        let normalize: Option<Single> = if self.normalize_enabled {
            Some(self.normalize_offset_db)
        } else {
            None
        };
        match &mut self.handover.slots[place] {
            Some(slot) => slot.process_wet(ch, dry, normalize, rack, arith),
            None => {
                proof {
                    rack.lemma_nothing_yet();
                }
                dsp::copy_samples(dry)
            },
        }
    }

    /// Renders one channel before the bypass; gives what the crossfade becomes, if there is one.
    fn sound_channel<S, B, C, A>(
        &mut self,
        io: &mut StageIo,
        ch: usize,
        rack: &mut Rack<S, B, C>,
        arith: A,
    ) -> (fade: Option<Crossfade>) where
        B: Fn(BlockOp, Vec<Single>, S) -> (Vec<Single>, S),
        C: Fn(Convolve, Vec<Single>, S) -> (Vec<Single>, Vec<Single>, S),
        A: Fn(SampleOp) -> Single + Copy,

        requires
            old(self).places_wf(),
            old(io).wf(),
            ch < old(io).channels@.len() <= old(self).channels(),
            old(rack).wf(),
            dsp::computes(arith),
        ensures
            final(self).places_wf(),
            final(io).wf(),
            final(io).same_shape(old(io)),
            old(self).only_queues_moved(final(self)),
            forall|c: int|
                0 <= c < old(self).channels() && c != ch ==> #[trigger] old(self).queues_untouched(
                    final(self),
                    c,
                ),
            forall|c: int|
                0 <= c < old(io).channels@.len() && c != ch ==> final(io).channels@[c] == old(
                    io,
                ).channels@[c],
            final(rack).went_on(old(rack)),
            channel_heard(
                old(self),
                final(self),
                ch,
                arith,
                old(io).channels@[ch as int]@,
                final(io).channels@[ch as int]@,
                final(rack).since(old(rack)),
            ),
            fade == (match old(self).handover.crossfade {
                Some(f) => Some(f.later(old(io).frames as int)),
                None => None,
            }),
    {
        let active: usize = self.handover.active;
        let dry: Vec<Single> = dsp::copy_samples(&io.channels[ch]);
        match self.handover.crossfade {
            None => {
                let wet: Vec<Single> = self.run_place(active, ch, &dry, rack, arith);
                io.put(ch, wet);
                None
            },
            Some(mut fade) => {
                if fade.remaining == 0 {
                    let wet: Vec<Single> = self.run_place(1 - active, ch, &dry, rack, arith);
                    io.put(ch, wet);
                    return Some(fade);
                }
                let ghost start = fade;
                let outgoing: Vec<Single> = self.run_place(active, ch, &dry, rack, arith);
                let ghost halfway = *self;
                let ghost earlier = *rack;
                let incoming: Vec<Single> = self.run_place(1 - active, ch, &dry, rack, arith);
                let out: Vec<Single> = fade.fade(&outgoing, &incoming, arith);
                proof {
                    Rack::lemma_went_on(old(rack), &earlier, rack);
                    assert(both_heard(
                        old(self),
                        self,
                        start,
                        ch,
                        arith,
                        dry@,
                        out@,
                        rack.since(old(rack)),
                        (outgoing@, earlier.since(old(rack))),
                        (incoming@, rack.since(&earlier)),
                    ));
                    assert forall|c: int|
                        0 <= c < old(self).channels() && c != ch implies #[trigger] old(
                        self,
                    ).queues_untouched(self, c) by {
                        assert(old(self).queues_untouched(&halfway, c));
                        assert(halfway.queues_untouched(self, c));
                    }
                }
                io.put(ch, out);
                Some(fade)
            },
        }
    }

    /// Ends the block for the crossfade: its handover completes or waits.
    fn commit(&mut self, fade: Option<Crossfade>)
        requires
            old(self).places_wf(),
            fade is Some == old(self).handover.crossfade is Some,
            fade matches Some(f) ==> f.wf() && f.total
                == old(self).handover.crossfade_total_samples,
            old(self).mix_target == old(self).mix_target_spec(),
        ensures
            final(self).places_wf(),
            old(self).same_settings(final(self)),
            final(self).mix == old(self).mix,
            final(self).mix_target == final(self).mix_target_spec(),
            match fade {
                Some(f) => old(self).handover.committed(&final(self).handover, f),
                None => final(self).handover == old(self).handover,
            },
    {
        if let Some(f) = fade {
            self.handover.commit(f);
            self.recompute_mix_target();
        }
    }

    /// What the handover becomes over a block of `n` samples in which only `played` was heard.
    pub open spec fn handover_moved(&self, played: &NamStage, after: &NamStage, n: int) -> bool {
        match self.handover.crossfade {
            Some(fade) => played.handover.committed(&after.handover, fade.later(n)),
            None => after.handover == played.handover,
        }
    }

    /// Renders one channel before the bypass. Only the block's last channel commits the crossfade:
    /// every channel of a block starts from the same point of it.
    pub fn render_channel<S, B, C, A>(
        &mut self,
        io: &mut StageIo,
        ch: usize,
        commit: bool,
        rack: &mut Rack<S, B, C>,
        arith: A,
    ) where
        B: Fn(BlockOp, Vec<Single>, S) -> (Vec<Single>, S),
        C: Fn(Convolve, Vec<Single>, S) -> (Vec<Single>, Vec<Single>, S),
        A: Fn(SampleOp) -> Single + Copy,

        requires
            old(self).wf(),
            old(io).wf(),
            ch < old(io).channels@.len() <= old(self).channels(),
            old(rack).wf(),
            dsp::computes(arith),
        ensures
            final(self).wf(),
            final(io).wf(),
            final(io).same_shape(old(io)),
            final(self).same_settings(old(self)),
            final(self).mix == old(self).mix,
            forall|c: int|
                0 <= c < old(io).channels@.len() && c != ch ==> final(io).channels@[c] == old(
                    io,
                ).channels@[c],
            final(rack).went_on(old(rack)),
            !commit ==> old(self).played_channel(
                final(self),
                ch,
                arith,
                old(io).channels@[ch as int]@,
                final(io).channels@[ch as int]@,
                final(rack).since(old(rack)),
            ),
            commit ==> exists|played: NamStage| #[trigger]
                old(self).played_channel(
                    &played,
                    ch,
                    arith,
                    old(io).channels@[ch as int]@,
                    final(io).channels@[ch as int]@,
                    final(rack).since(old(rack)),
                ) && old(self).handover_moved(&played, final(self), old(io).frames as int),
    {
        let fade = self.sound_channel(io, ch, rack, arith);
        let ghost played = *self;
        if commit {
            self.commit(fade);
        }
        proof {
            assert(old(self).played_channel(
                &played,
                ch,
                arith,
                old(io).channels@[ch as int]@,
                io.channels@[ch as int]@,
                rack.since(old(rack)),
            ));
        }
    }

    /// One channel was rendered, by these runs, and the queues of that channel alone moved.
    pub open spec fn played_channel<A>(
        &self,
        played: &NamStage,
        ch: usize,
        arith: A,
        dry: Seq<Single>,
        out: Seq<Single>,
        runs: Seq<Run>,
    ) -> bool where A: Fn(SampleOp) -> Single {
        &&& played.places_wf()
        &&& self.only_queues_moved(played)
        &&& channel_heard(self, played, ch, arith, dry, out, runs)
        &&& forall|c: int|
            0 <= c < self.channels() && c != ch ==> #[trigger] self.queues_untouched(played, c)
    }

    /// The first `heard.len()` channels were rendered, each by its part of the runs, all from the
    /// same point of the crossfade, and their queues alone moved.
    pub open spec fn played_block<A>(
        &self,
        played: &NamStage,
        arith: A,
        dry: Seq<Seq<Single>>,
        heard: Seq<Seq<Single>>,
        parts: Seq<Seq<Run>>,
    ) -> bool where A: Fn(SampleOp) -> Single {
        &&& played.places_wf()
        &&& self.only_queues_moved(played)
        &&& parts.len() == heard.len()
        &&& forall|c: int|
            0 <= c < heard.len() ==> channel_heard(
                self,
                played,
                c as usize,
                arith,
                dry[c],
                #[trigger] heard[c],
                parts[c],
            )
        &&& forall|c: int|
            heard.len() <= c < self.channels() ==> #[trigger] self.queues_untouched(played, c)
    }

    /// One more channel after the first ones.
    proof fn lemma_block_grows<A>(
        &self,
        played: &NamStage,
        more: &NamStage,
        arith: A,
        dry: Seq<Seq<Single>>,
        heard: Seq<Seq<Single>>,
        parts: Seq<Seq<Run>>,
        out: Seq<Single>,
        runs: Seq<Run>,
    ) where A: Fn(SampleOp) -> Single
        requires
            self.places_wf(),
            heard.len() < self.channels() <= 2,
            self.played_block(played, arith, dry, heard, parts),
            played.played_channel(
                more,
                heard.len() as usize,
                arith,
                dry[heard.len() as int],
                out,
                runs,
            ),
        ensures
            self.played_block(more, arith, dry, heard.push(out), parts.push(runs)),
    {
        let at = heard.len() as int;
        let grown = heard.push(out);
        let all = parts.push(runs);
        assert forall|c: int| 0 <= c < grown.len() implies channel_heard(
            self,
            more,
            c as usize,
            arith,
            dry[c],
            #[trigger] grown[c],
            all[c],
        ) by {
            if c < at {
                assert(played.queues_untouched(more, c));
                assert(heard[c] == grown[c]);
                lemma_heard_carries(
                    self,
                    self,
                    played,
                    more,
                    c as usize,
                    arith,
                    dry[c],
                    heard[c],
                    parts[c],
                );
            } else {
                assert(self.queues_untouched(played, c));
                lemma_heard_carries(
                    played,
                    self,
                    more,
                    more,
                    c as usize,
                    arith,
                    dry[c],
                    out,
                    runs,
                );
            }
        }
        assert forall|c: int| grown.len() <= c < self.channels() implies #[trigger] self.queues_untouched(
            more,
            c,
        ) by {
            assert(self.queues_untouched(played, c) && played.queues_untouched(more, c));
        }
    }

    /// Everything one block does, and all that ran for it, channel by channel: the channels that
    /// are rendered, what each channel then carries, the handover's progress, and the bypass blend
    /// that has the last word.
    pub open spec fn processed_via<A>(
        &self,
        after: &NamStage,
        runs: Seq<Run>,
        arith: A,
        dry: Seq<Seq<Single>>,
        out: Seq<Seq<Single>>,
        n: int,
        played: &NamStage,
        heard: Seq<Seq<Single>>,
        parts: Seq<Seq<Run>>,
        wet: Seq<Seq<Single>>,
    ) -> bool where A: Fn(SampleOp) -> Single {
        let each = self.independent && dry.len() > 1;
        &&& heard.len() == (if each {
            dry.len()
        } else {
            1
        })
        &&& self.played_block(played, arith, dry, heard, parts)
        &&& runs == dsp::in_turn(parts)
        &&& self.handover_moved(played, after, n)
        &&& wet.len() == dry.len()
        &&& forall|ch: int|
            0 <= ch < wet.len() ==> #[trigger] wet[ch] == heard[if each {
                ch
            } else {
                0
            }]
        &&& bypass::blended(arith, self.mix, after.mix_target, dry, wet, out, after.mix)
    }

    pub open spec fn processed<A>(
        &self,
        after: &NamStage,
        runs: Seq<Run>,
        arith: A,
        dry: Seq<Seq<Single>>,
        out: Seq<Seq<Single>>,
        n: int,
    ) -> bool where A: Fn(SampleOp) -> Single {
        exists|
            played: NamStage,
            heard: Seq<Seq<Single>>,
            parts: Seq<Seq<Run>>,
            wet: Seq<Seq<Single>>,
        | #[trigger]
            self.processed_via(after, runs, arith, dry, out, n, &played, heard, parts, wet)
    }

    /// Runs one block in place. Linked channels share what channel 0 makes; independent ones each
    /// run their own.
    pub fn process<S, B, C, A>(
        &mut self,
        io: &mut StageIo,
        rack: &mut Rack<S, B, C>,
        arith: A,
    ) where
        B: Fn(BlockOp, Vec<Single>, S) -> (Vec<Single>, S),
        C: Fn(Convolve, Vec<Single>, S) -> (Vec<Single>, Vec<Single>, S),
        A: Fn(SampleOp) -> Single + Copy,

        requires
            old(self).wf(),
            old(io).wf(),
            0 < old(io).channels@.len() <= old(self).channels(),
            old(rack).wf(),
            dsp::computes(arith),
        ensures
            final(self).wf(),
            final(io).wf(),
            final(io).same_shape(old(io)),
            final(self).same_settings(old(self)),
            final(self).handles() == old(self).handles(),
            final(rack).went_on(old(rack)),
            old(self).processed(
                final(self),
                final(rack).since(old(rack)),
                arith,
                old(io).samples(),
                final(io).samples(),
                old(io).frames as int,
            ),
    {
        let count: usize = io.channels.len();
        let dry: Vec<Vec<Single>> = io.capture();
        let ghost dries = io.samples();
        let ghost n = io.frames as int;
        let ghost mut heard: Seq<Seq<Single>> = Seq::empty();
        let ghost mut parts: Seq<Seq<Run>> = Seq::empty();
        let each: bool = self.independent && count > 1;
        let last: usize = if each {
            count - 1
        } else {
            0
        };
        let mut ch: usize = 0;
        proof {
            rack.lemma_nothing_yet();
        }
        while ch < last
            invariant
                old(self).wf(),
                self.wf(),
                io.wf(),
                io.same_shape(old(io)),
                ch <= last < count == io.channels@.len(),
                count <= old(self).channels() <= 2,
                rack.went_on(old(rack)),
                rack.since(old(rack)) == dsp::in_turn(parts),
                dsp::computes(arith),
                dries == old(io).samples(),
                heard.len() == ch,
                self.same_settings(old(self)),
                self.mix == old(self).mix,
                old(self).played_block(self, arith, dries, heard, parts),
                forall|c: int| ch <= c < count ==> (#[trigger] io.channels@[c])@ == dries[c],
                forall|c: int| 0 <= c < ch ==> (#[trigger] io.channels@[c])@ == heard[c],
            decreases last - ch,
        {
            let ghost before = *self;
            let ghost earlier = *rack;
            self.render_channel(io, ch, false, rack, arith);
            proof {
                let out = io.channels@[ch as int]@;
                let runs = rack.since(&earlier);
                old(self).lemma_block_grows(
                    &before,
                    self,
                    arith,
                    dries,
                    heard,
                    parts,
                    out,
                    runs,
                );
                Rack::lemma_went_on(old(rack), &earlier, rack);
                dsp::lemma_in_turn_grows(parts, runs);
                heard = heard.push(out);
                parts = parts.push(runs);
            }
            ch += 1;
        }
        let ghost before = *self;
        let ghost earlier = *rack;
        self.render_channel(io, last, true, rack, arith);
        let ghost played = choose|p: NamStage| #[trigger]
            before.played_channel(
                &p,
                last,
                arith,
                dries[last as int],
                io.channels@[last as int]@,
                rack.since(&earlier),
            ) && before.handover_moved(&p, self, n);
        proof {
            let out = io.channels@[last as int]@;
            let runs = rack.since(&earlier);
            old(self).lemma_block_grows(
                &before,
                &played,
                arith,
                dries,
                heard,
                parts,
                out,
                runs,
            );
            Rack::lemma_went_on(old(rack), &earlier, rack);
            dsp::lemma_in_turn_grows(parts, runs);
            heard = heard.push(out);
            parts = parts.push(runs);
        }
        if !each {
            io.duplicate_first();
        }
        let ghost wet = io.samples();
        let end: Single = bypass::blend(io, &dry, self.mix, self.mix_target, arith);
        self.mix = end;
        proof {
            assert(played.handles() =~= old(self).handles());
            assert(self.handles() =~= played.handles());
            assert(Seq::new(dry@.len(), |c: int| dry@[c]@) =~= dries);
            assert(old(self).processed_via(
                self,
                rack.since(old(rack)),
                arith,
                dries,
                io.samples(),
                n,
                &played,
                heard,
                parts,
                wet,
            ));
        }
    }
}

/// Prepares the model stage.
pub struct NamPrep;

impl NamPrep {
    /// An empty stage with every control at its default and the bypass settled on the dry side.
    pub fn prepare(&self, ctx: &PrepareContext) -> (stage: NamStage)
        requires
            ctx.wf(),
        ensures
            stage.wf(),
            stage.fresh(),
            stage.handover.prepared_for == *ctx,
            stage.handover.crossfade_total_samples == handover::crossfade_samples(
                ctx.sample_rate.hz as int,
            ),
            stage.handover.active == 0,
            stage.handover.playing() is None,
            stage.handover.standby() is None,
            stage.handover.retired is None,
            stage.handover.crossfade is None,
            stage.enabled == (registry::nam_enabled().kind->default_index == 1),
            stage.normalize_enabled == (registry::nam_normalize_enabled().kind->default_index == 1),
            stage.normalize_offset_db == registry::nam_normalize_offset_db().kind->default,
            !stage.independent,
            stage.mix == Single::zero(),
            stage.mix_target == Single::zero(),
    {
        NamStage {
            handover: Handover::new(*ctx),
            enabled: stepped_default_on(registry::nam_enabled()),
            normalize_enabled: stepped_default_on(registry::nam_normalize_enabled()),
            normalize_offset_db: continuous_default(registry::nam_normalize_offset_db()),
            independent: false,
            mix: Single::zero(),
            mix_target: Single::zero(),
        }
    }
}

/// The handle in one place, if there is one.
pub open spec fn handle_in(place: Option<Box<NamSlot>>) -> Multiset<u64> {
    match place {
        Some(slot) => Multiset::singleton(slot.handle),
        None => Multiset::empty(),
    }
}

/// The handle of an offered model, if a model is offered.
pub open spec fn handle_offered(offer: Option<Resource>) -> Multiset<u64> {
    match offer {
        Some(Resource::Nam(slot, _)) => Multiset::singleton(slot.handle),
        _ => Multiset::empty(),
    }
}

impl NamStage {
    /// Every model instance this stage is responsible for, by its handle.
    pub open spec fn handles(&self) -> Multiset<u64> {
        handle_in(self.handover.playing()).add(handle_in(self.handover.standby())).add(
            handle_in(self.handover.parked()),
        )
    }

    /// The stage lets its input through unchanged whatever its mix, so the mix cannot be heard.
    pub open spec fn transparent(&self) -> bool {
        self.handover.playing() is None && self.handover.crossfade is None
    }

    pub fn wet_path_is_transparent(&self) -> (r: bool)
        requires
            self.handover.wf(),
        ensures
            r == self.transparent(),
    {
        self.handover.slots[self.handover.active].is_none() && self.handover.crossfade.is_none()
    }

    /// A handover to `incoming` has begun; the mix moves at once to its target where it could not
    /// be heard, and otherwise stays where it is and glides.
    pub open spec fn handover_begun(&self, after: &NamStage, incoming: Option<Box<NamSlot>>) -> bool {
        &&& self.handover.handed_over(
            &after.handover,
            incoming,
            match incoming {
                Some(slot) => slot.latency(),
                None => 0,
            },
        )
        &&& after.same_settings(self)
        &&& after.mix == (if self.transparent() {
            after.mix_target
        } else {
            self.mix
        })
    }

    /// Begins a handover to `slot`, or hands it back, with `ctx`, while the pen is occupied.
    pub fn install(&mut self, slot: Box<NamSlot>, ctx: PrepareContext) -> (refused: Option<Resource>)
        requires
            old(self).wf(),
            slot.wf(old(self).channels()),
        ensures
            final(self).wf(),
            old(self).handover.retired is Some ==> refused == Some(Resource::Nam(slot, ctx))
                && *final(self) == *old(self),
            old(self).handover.retired is None ==> refused is None && old(self).handover_begun(
                final(self),
                Some(slot),
            ),
            final(self).handles().add(handle_offered(refused)) == old(self).handles().insert(
                slot.handle,
            ),
            refused is None && old(self).enabled && old(self).transparent() ==> final(self).mix
                == Single::one(),
    {
        let transparent: bool = self.wet_path_is_transparent();
        let prime: u32 = slot.latency_samples();
        let ghost handle = slot.handle;
        match self.handover.install(slot, prime) {
            Some(back) => {
                proof {
                    assert(self.handles().add(Multiset::singleton(handle)) =~= old(
                        self,
                    ).handles().insert(handle));
                }
                Some(Resource::nam(back, ctx))
            },
            None => {
                self.recompute_mix_target();
                if transparent {
                    self.mix = self.mix_target;
                }
                proof {
                    assert(self.handles().add(Multiset::empty()) =~= old(self).handles().insert(
                        handle,
                    ));
                }
                None
            },
        }
    }

    /// Loads a model into the stage itself, off the audio thread.
    pub fn load_model(&mut self, model: ModelInfo)
        requires
            old(self).wf(),
            old(self).handover.retired is None,
            model.sample_rate.wf(),
            rates_fit(
                old(self).handover.prepared_for.sample_rate.hz as int,
                model.sample_rate.hz as int,
            ),
        ensures
            final(self).wf(),
            final(self).handles() == old(self).handles().insert(model.handle),
            exists|slot: Box<NamSlot>| #[trigger]
                old(self).handover_begun(final(self), Some(slot)) && slot.made_for(
                    model,
                    old(self).handover.prepared_for.sample_rate,
                    old(self).handover.prepared_for.max_block_size,
                    old(self).channels(),
                ),
    {
        let ctx: PrepareContext = self.handover.prepared_for;
        let channel_count: usize = ctx.channel_config.output_channels();
        let slot = Box::new(
            NamSlot::new(model, ctx.sample_rate, ctx.max_block_size, channel_count),
        );
        let ghost installed = slot;
        let refused = self.install(slot, ctx);
        proof {
            assert(old(self).handover_begun(self, Some(installed)));
            assert(self.handles().add(Multiset::empty()) =~= self.handles());
        }
    }

    /// A handover to nothing has begun where the pen was free; where it was not, nothing has.
    pub open spec fn unloaded(&self, after: &NamStage) -> bool {
        if self.handover.retired is None {
            self.handover_begun(after, None)
        } else {
            *after == *self
        }
    }

    /// Begins a handover to nothing; while the pen is occupied it does not.
    pub fn unload(&mut self)
        requires
            old(self).wf(),
        ensures
            final(self).wf(),
            old(self).unloaded(final(self)),
            final(self).handles() == old(self).handles(),
    {
        let transparent: bool = self.wet_path_is_transparent();
        if self.handover.retired.is_some() {
            return;
        }
        self.handover.unload();
        self.recompute_mix_target();
        if transparent {
            self.mix = self.mix_target;
        }
        proof {
            assert(self.handles() =~= old(self).handles());
        }
    }

    /// The offer can be taken: what was prepared for this very chain fits it, and for anything
    /// else there is room in the pen.
    pub open spec fn can_take(&self, offer: Option<Resource>) -> bool {
        offer matches Some(Resource::Nam(slot, ctx)) ==> if ctx == self.handover.prepared_for {
            slot.wf(self.channels())
        } else {
            self.handover.retired is None
        }
    }

    /// What becomes of an offer, `left` being what is still on offer afterwards.
    pub open spec fn accepted(
        &self,
        offer: Option<Resource>,
        after: &NamStage,
        left: Option<Resource>,
    ) -> bool {
        match offer {
            Some(Resource::Nam(slot, ctx)) => if ctx != self.handover.prepared_for {
                &&& left is None
                &&& *after == (NamStage {
                    handover: Handover { retired: Some(Parked { slot, ctx }), ..self.handover },
                    ..*self
                })
            } else if self.handover.retired is Some {
                left == offer && *after == *self
            } else {
                left is None && self.handover_begun(after, Some(slot))
            },
            _ => left == offer && *after == *self,
        }
    }

    /// Takes an offered model and begins the handover to it. A model prepared for other figures
    /// goes straight to the pen, and one that finds the pen occupied stays on offer.
    pub fn accept_resource(&mut self, offer: &mut Option<Resource>)
        requires
            old(self).wf(),
            old(self).can_take(*old(offer)),
        ensures
            final(self).wf(),
            old(self).accepted(*old(offer), final(self), *final(offer)),
            final(self).handles().add(handle_offered(*final(offer))) == old(self).handles().add(
                handle_offered(*old(offer)),
            ),
    {
        let ghost offered = *offer;
        match Resource::take_nam(offer) {
            None => {},
            Some((slot, ctx)) => {
                let ghost handle = slot.handle;
                if ctx != self.handover.prepared_for {
                    self.handover.retired = Some(Parked { slot, ctx });
                } else {
                    let refused = self.install(slot, ctx);
                    *offer = refused;
                }
                proof {
                    assert(old(self).handles().insert(handle) =~= old(self).handles().add(
                        handle_offered(offered),
                    ));
                    assert(self.handles().add(handle_offered(*offer)) =~= old(self).handles().add(
                        handle_offered(offered),
                    ));
                }
            },
        }
    }

    /// Puts back in the pen what a push gave back.
    pub fn keep_rejected(&mut self, outcome: Result<(), Resource>)
        requires
            old(self).wf(),
            old(self).handover.retired is None,
            outcome matches Err(back) ==> back is Nam,
        ensures
            final(self).wf(),
            *final(self) == (NamStage {
                handover: Handover {
                    retired: (match outcome {
                        Err(Resource::Nam(slot, ctx)) => Some(Parked { slot, ctx }),
                        _ => None,
                    }),
                    ..old(self).handover
                },
                ..*old(self)
            }),
    {
        if let Err(Resource::Nam(slot, ctx)) = outcome {
            self.handover.retired = Some(Parked { slot, ctx });
        }
    }

    /// What is in the pen was offered to the return ring, once, and is gone from the pen exactly
    /// where the ring took it; an empty pen offers nothing.
    pub open spec fn returned(
        &self,
        after: &NamStage,
        answered: Seq<(Resource, bool)>,
        answered_after: Seq<(Resource, bool)>,
    ) -> bool {
        match self.handover.retired {
            None => *after == *self && answered_after == answered,
            Some(parked) => {
                let taken = answered_after.last().1;
                &&& answered_after == answered.push(
                    (Resource::Nam(parked.slot, parked.ctx), taken),
                )
                &&& *after == (NamStage {
                    handover: Handover {
                        retired: if taken {
                            None
                        } else {
                            Some(parked)
                        },
                        ..self.handover
                    },
                    ..*self
                })
            },
        }
    }

    /// Offers what is in the pen to the return ring, once, and keeps it where the ring is full: it
    /// is in one of the two places afterwards and never lost.
    pub fn collect_retired(&mut self, out: &mut RetireSink<'_>)
        requires
            old(self).wf(),
            old(out).rejections() < usize::MAX,
        ensures
            final(self).wf(),
            old(self).returned(final(self), old(out).answered(), final(out).answered()),
            match old(self).handover.retired {
                None => {
                    &&& *final(self) == *old(self)
                    &&& final(out).answered() == old(out).answered()
                    &&& final(out).rejections() == old(out).rejections()
                },
                Some(parked) => {
                    ||| {
                        &&& *final(self) == (NamStage {
                            handover: Handover { retired: None, ..old(self).handover },
                            ..*old(self)
                        })
                        &&& final(out).answered() == old(out).answered().push(
                            (Resource::Nam(parked.slot, parked.ctx), true),
                        )
                        &&& final(out).sent() == old(out).sent().push(
                            Resource::Nam(parked.slot, parked.ctx),
                        )
                        &&& final(out).rejections() == old(out).rejections()
                    }
                    ||| {
                        &&& *final(self) == *old(self)
                        &&& final(out).answered() == old(out).answered().push(
                            (Resource::Nam(parked.slot, parked.ctx), false),
                        )
                        &&& final(out).sent() == old(out).sent()
                        &&& final(out).rejections() == old(out).rejections() + 1
                    }
                },
            },
    {
        if let Some(parked) = self.handover.retired.take() {
            let outcome = out.push(Resource::nam(parked.slot, parked.ctx));
            self.keep_rejected(outcome);
        }
    }

    pub fn unload_resource(&mut self, kind: ResourceKind)
        requires
            old(self).wf(),
        ensures
            final(self).wf(),
            kind == ResourceKind::Nam ==> old(self).unloaded(final(self)),
            kind != ResourceKind::Nam ==> *final(self) == *old(self),
            final(self).handles() == old(self).handles(),
    {
        if kind == ResourceKind::Nam {
            self.unload();
        }
    }

    /// The queues of both places hold nothing but their priming silence.
    pub open spec fn all_primed(&self) -> bool {
        &&& self.handover.playing() matches Some(slot) ==> slot.primed()
        &&& self.handover.standby() matches Some(slot) ==> slot.primed()
    }

    /// The resamplers of both places.
    pub open spec fn cleared_by_reset(&self) -> Seq<BlockOp> {
        resamplers_of(self.handover.slots@[0]) + resamplers_of(self.handover.slots@[1])
    }

    /// Clears the signal that waits in the queues of both places; gives the resamplers whose own
    /// history the shell has to clear with it.
    pub fn reset(&mut self) -> (cleared: Vec<BlockOp>)
        requires
            old(self).wf(),
        ensures
            final(self).wf(),
            old(self).only_queues_moved(final(self)),
            final(self).all_primed(),
            cleared@ == old(self).cleared_by_reset(),
    {
        let mut cleared: Vec<BlockOp> = Vec::new();
        proof {
            assert(cleared@ =~= Seq::empty());
        }
        if let Some(slot) = &mut self.handover.slots[0] {
            slot.list_resamplers(&mut cleared);
            slot.reset();
        }
        if let Some(slot) = &mut self.handover.slots[1] {
            slot.list_resamplers(&mut cleared);
            slot.reset();
        }
        proof {
            assert(cleared@ =~= resamplers_of(old(self).handover.slots@[0]) + resamplers_of(
                old(self).handover.slots@[1],
            ));
        }
        cleared
    }

    /// The delay of the model that plays.
    pub open spec fn latency(&self) -> u32 {
        match self.handover.playing() {
            Some(slot) => slot.latency(),
            None => 0,
        }
    }

    /// The delay of the model that plays.
    pub fn latency_samples(&self) -> (n: u32)
        requires
            self.wf(),
        ensures
            n == self.latency(),
    {
        match &self.handover.slots[self.handover.active] {
            Some(slot) => slot.latency_samples(),
            None => 0,
        }
    }

    pub fn tail_samples(&self) -> (n: u32)
        ensures
            n == 0,
    {
        0
    }

    /// This stage after a parameter change: one that is not its own leaves it as it is.
    pub open spec fn changed_by(&self, change: ParamChange) -> NamStage {
        let on = change.value.means_on();
        if change.id == param::id_of("nam.enabled"@) {
            NamStage {
                enabled: on,
                mix_target: Single::switch(on && self.engaged()),
                ..*self
            }
        } else if change.id == param::id_of("nam.normalize_enabled"@) {
            NamStage { normalize_enabled: on, ..*self }
        } else if change.id == param::id_of("nam.normalize_offset_db"@) {
            NamStage { normalize_offset_db: change.value, ..*self }
        } else if change.id == param::id_of("global.independent_channels"@) {
            NamStage { independent: on, ..*self }
        } else {
            *self
        }
    }

    /// Takes a parameter change that is this stage's, and ignores any other.
    pub fn apply(&mut self, change: ParamChange)
        requires
            old(self).wf(),
        ensures
            final(self).wf(),
            *final(self) == old(self).changed_by(change),
    {
        if change.id == ParamId::from_key("nam.enabled") {
            self.enabled = change.value.is_on();
            self.recompute_mix_target();
        } else if change.id == ParamId::from_key("nam.normalize_enabled") {
            self.normalize_enabled = change.value.is_on();
        } else if change.id == ParamId::from_key("nam.normalize_offset_db") {
            self.normalize_offset_db = change.value;
        } else if change.id == ParamId::from_key("global.independent_channels") {
            self.independent = change.value.is_on();
        }
    }

    /// What is reported: whether a model plays, and whether a handover is under way.
    pub open spec fn reported(&self) -> Seq<TelemetryEntry> {
        seq![
            TelemetryEntry {
                id: param::id_of("telemetry.nam.loaded"@).value,
                value: Single::switch(self.handover.playing() is Some),
            },
            TelemetryEntry {
                id: param::id_of("telemetry.nam.handover_active"@).value,
                value: Single::switch(self.handover.crossfade is Some),
            },
        ]
    }

    /// Reports whether a model plays and whether a handover is under way.
    pub fn telemetry(&self, out: &mut Vec<TelemetryEntry>)
        requires
            self.wf(),
        ensures
            final(out)@ == old(out)@ + self.reported(),
    {
        let loaded: bool = self.handover.slots[self.handover.active].is_some();
        out.push(
            TelemetryEntry {
                id: ParamId::from_key("telemetry.nam.loaded").value,
                value: Single::switch(loaded),
            },
        );
        out.push(
            TelemetryEntry {
                id: ParamId::from_key("telemetry.nam.handover_active").value,
                value: Single::switch(self.handover.crossfade.is_some()),
            },
        );
    }
}

/// What was heard on one channel depends on the two places only by their instances and that
/// channel's queues.
proof fn lemma_heard_carries<A>(
    before: &NamStage,
    other_before: &NamStage,
    after: &NamStage,
    other_after: &NamStage,
    ch: usize,
    arith: A,
    dry: Seq<Single>,
    out: Seq<Single>,
    runs: Seq<Run>,
) where A: Fn(SampleOp) -> Single
    requires
        other_before.only_queues_moved(before),
        other_before.queues_untouched(before, ch as int),
        after.only_queues_moved(other_after),
        after.queues_untouched(other_after, ch as int),
        channel_heard(before, after, ch, arith, dry, out, runs),
    ensures
        channel_heard(other_before, other_after, ch, arith, dry, out, runs),
{
    if let Some(fade) = before.handover.crossfade {
        if fade.remaining != 0 {
            let (outgoing, incoming) = choose|
                outgoing: (Seq<Single>, Seq<Run>),
                incoming: (Seq<Single>, Seq<Run>),
            | #[trigger]
                both_heard(
                    before,
                    after,
                    fade,
                    ch,
                    arith,
                    dry,
                    out,
                    runs,
                    outgoing,
                    incoming,
                );
            assert(both_heard(
                other_before,
                other_after,
                fade,
                ch,
                arith,
                dry,
                out,
                runs,
                outgoing,
                incoming,
            ));
        }
    }
}

/// While one model plays at the engine's own rate, it hears the signal without a gap or a repeat:
/// in every block each channel's state is handed exactly that channel's samples where channels are
/// independent, and where they are linked channel 0's is handed channel 0's and no other state is
/// touched.
pub proof fn lemma_a_model_hears_the_signal<A>(
    before: &NamStage,
    after: &NamStage,
    runs: Seq<Run>,
    arith: A,
    dry: Seq<Seq<Single>>,
    out: Seq<Seq<Single>>,
    n: int,
    slot: Box<NamSlot>,
    channel: usize,
) where A: Fn(SampleOp) -> Single
    requires
        before.wf(),
        before.processed(after, runs, arith, dry, out, n),
        before.handover.crossfade is None,
        before.handover.playing() == Some(slot),
        slot.resample@[0] is None,
        0 < dry.len() <= before.channels(),
    ensures
        ({
            let each = before.independent && dry.len() > 1;
            dsp::handed_block(runs, BlockOp::Model { handle: slot.handle, channel }) == (if channel
                == 0 || (each && channel < dry.len()) {
                dry[channel as int]
            } else {
                Seq::empty()
            })
        }),
{
    let op = BlockOp::Model { handle: slot.handle, channel };
    let none = Convolve { handle: 0, channel: 0 };
    let (played, heard, parts, wet) = choose|
        played: NamStage,
        heard: Seq<Seq<Single>>,
        parts: Seq<Seq<Run>>,
        wet: Seq<Seq<Single>>,
    | #[trigger]
        before.processed_via(after, runs, arith, dry, out, n, &played, heard, parts, wet);
    assert forall|c: int| 0 <= c < heard.len() implies dsp::handed_block(
        #[trigger] parts[c],
        op,
    ) == (if c == channel {
        dry[c]
    } else {
        Seq::empty()
    }) by {
        assert(channel_heard(before, &played, c as usize, arith, dry[c], heard[c], parts[c]));
        assert(slot.resample@[c] is None);
        reveal_with_fuel(dsp::handed_block, 3);
        assert(dsp::handed_block(parts[c], op) =~= (if c == channel {
            dry[c]
        } else {
            Seq::empty()
        }));
    }
    reveal_with_fuel(dsp::in_turn, 3);
    if heard.len() == 1 {
        assert(runs =~= parts[0]);
    } else {
        assert(parts.drop_last().last() == parts[0]);
        assert(runs =~= parts[0] + parts[1]);
        dsp::lemma_a_processor_hears_one_stream(parts[0], parts[1], none, op);
        assert(dsp::handed_block(runs, op) =~= (if channel < 2 {
            dry[channel as int]
        } else {
            Seq::empty()
        }));
    }
}

/// A handover whose crossfade is over completes with the first block that finds the pen free: the
/// model that was faded in plays, the one that was faded out is in the pen, and nothing stands by.
pub proof fn lemma_handover_completes_once_the_pen_is_free(
    before: &NamStage,
    played: &NamStage,
    after: &NamStage,
    fade: Crossfade,
    n: int,
)
    requires
        before.wf(),
        before.only_queues_moved(played),
        before.handover_moved(played, after, n),
        before.handover.crossfade == Some(fade),
        fade.later(n).remaining == 0,
        before.handover.retired is None,
    ensures
        after.handover.crossfade is None,
        same_place(before.handover.standby(), after.handover.playing()),
        same_place(before.handover.playing(), after.handover.parked()),
        after.handover.standby() is None,
{
}

/// While the pen is occupied a handover never completes: both places stay as they are and so does
/// what is in the pen, however long the crossfade has been over.
pub proof fn lemma_handover_waits_for_the_pen(
    before: &NamStage,
    played: &NamStage,
    after: &NamStage,
    fade: Crossfade,
    n: int,
)
    requires
        before.wf(),
        before.only_queues_moved(played),
        before.handover_moved(played, after, n),
        before.handover.crossfade == Some(fade),
        before.handover.retired is Some,
    ensures
        after.handover.active == before.handover.active,
        after.handover.crossfade == Some(fade.later(n)),
        same_place(before.handover.playing(), after.handover.playing()),
        same_place(before.handover.standby(), after.handover.standby()),
        after.handover.retired == before.handover.retired,
{
}

/// Loading a replacement into a stage that plays a model moves neither the bypass nor its target.
pub proof fn lemma_replacement_leaves_the_bypass_alone(
    before: &NamStage,
    after: &NamStage,
    slot: Box<NamSlot>,
)
    requires
        before.wf(),
        after.wf(),
        before.handover.playing() is Some,
        before.handover_begun(after, Some(slot)),
    ensures
        after.mix == before.mix,
        after.mix_target == before.mix_target,
{
}

/// A first load into a stage that is on has the bypass on the wet side from the first sample, and
/// the target stays there for the whole handover and after it.
pub proof fn lemma_first_load_is_heard_for_the_whole_fade(
    empty: &NamStage,
    loaded: &NamStage,
    slot: Box<NamSlot>,
    played: &NamStage,
    after: &NamStage,
    n: int,
)
    requires
        empty.wf(),
        loaded.wf(),
        after.wf(),
        empty.enabled,
        empty.transparent(),
        empty.handover_begun(loaded, Some(slot)),
        loaded.only_queues_moved(played),
        loaded.handover_moved(played, after, n),
        after.same_settings(loaded),
    ensures
        loaded.mix == Single::one(),
        loaded.mix_target == Single::one(),
        after.mix_target == Single::one(),
{
}

/// Whether or not the model resamples on a channel, one channel's block ends with one run of that
/// model's loudness ramp, and what the ramp gives is what is heard. While normalization is on, the
/// ramp heads for the sum of the model's declared correction and the user's offset, and while it is
/// off for zero. Before it the model runs and nothing else: directly, once, on what came in, or by
/// its internal blocks, whose output follows what was queued.
pub proof fn lemma_the_gain_heads_for_the_correction_plus_the_offset<A>(
    handle: u64,
    base_db: Single,
    before: Option<SlotResampler>,
    after: Option<SlotResampler>,
    ch: usize,
    normalize: Option<Single>,
    arith: A,
    input: Seq<Single>,
    wet: Seq<Single>,
    runs: Seq<Run>,
) where A: Fn(SampleOp) -> Single
    requires
        channel_ran(handle, base_db, before, after, ch, normalize, arith, input, wet, runs),
    ensures
        runs.len() > 0,
        wet.len() == input.len(),
        ({
            let last = runs.len() - 1;
            let model = if before is None {
                BlockOp::Model { handle, channel: ch }
            } else {
                BlockOp::ResampledModel { handle, channel: ch }
            };
            &&& runs[last] matches Run::Block {
                op: BlockOp::NormalizeGain { handle: h, channel, target_db },
                input: raw,
                output,
            }
            &&& h == handle
            &&& channel == ch
            &&& output == wet
            &&& normalize matches Some(offset) ==> call_ensures(
                arith,
                (SampleOp::Sum { a: base_db, b: offset },),
                target_db,
            )
            &&& normalize is None ==> target_db == Single::zero()
            &&& forall|i: int|
                0 <= i < last ==> (#[trigger] runs[i]) is Block && runs[i]->Block_op == model
            &&& before is None ==> runs.len() == 2 && runs[0]->Block_input == input
                && runs[0]->Block_output == raw
            &&& before matches Some(b) ==> raw == (b.engine_out_fifo@ + resample::joined(
                resample::made_by(runs.drop_last()),
            )).take(input.len() as int)
        }),
{
    let (model, raw, target) = choose|model: Seq<Run>, raw: Seq<Single>, target: Single| #[trigger]
        channel_ran_via(
            handle,
            base_db,
            before,
            after,
            ch,
            normalize,
            arith,
            input,
            wet,
            runs,
            model,
            raw,
            target,
        );
    assert(runs.drop_last() =~= model);
    if let (Some(b), Some(a)) = (before, after) {
        assert((raw + a.engine_out_fifo@).take(input.len() as int) =~= raw);
        assert forall|i: int| 0 <= i < model.len() implies (#[trigger] runs[i]) is Block
            && runs[i]->Block_op == (BlockOp::ResampledModel { handle, channel: ch }) by {
            assert(runs[i] == model[i]);
            assert(resample::is_block_run(
                model[i],
                BlockOp::ResampledModel { handle, channel: ch },
                b.fed(input).subrange(
                    i * b.engine_block as int,
                    i * b.engine_block as int + b.engine_block as int,
                ),
            ));
        }
    }
}

/// Two instances that differ in their model's sample rate, or in anything but the declared
/// correction, head for the same gain under the same settings.
pub proof fn lemma_the_rate_does_not_move_the_gain<A>(
    one: (u64, Option<SlotResampler>, Option<SlotResampler>, Seq<Single>, Seq<Single>, Seq<Run>),
    other: (u64, Option<SlotResampler>, Option<SlotResampler>, Seq<Single>, Seq<Single>, Seq<Run>),
    base_db: Single,
    ch: usize,
    normalize: Option<Single>,
    arith: A,
) where A: Fn(SampleOp) -> Single
    requires
        channel_ran(one.0, base_db, one.1, one.2, ch, normalize, arith, one.3, one.4, one.5),
        channel_ran(
            other.0,
            base_db,
            other.1,
            other.2,
            ch,
            normalize,
            arith,
            other.3,
            other.4,
            other.5,
        ),
        forall|op: SampleOp, x: Single, y: Single|
            #![trigger call_ensures(arith, (op,), x), call_ensures(arith, (op,), y)]
            call_ensures(arith, (op,), x) && call_ensures(arith, (op,), y) ==> x == y,
    ensures
        one.5.len() > 0,
        other.5.len() > 0,
        one.5.last()->Block_op->target_db == other.5.last()->Block_op->target_db,
{
    lemma_the_gain_heads_for_the_correction_plus_the_offset(
        one.0,
        base_db,
        one.1,
        one.2,
        ch,
        normalize,
        arith,
        one.3,
        one.4,
        one.5,
    );
    lemma_the_gain_heads_for_the_correction_plus_the_offset(
        other.0,
        base_db,
        other.1,
        other.2,
        ch,
        normalize,
        arith,
        other.3,
        other.4,
        other.5,
    );
}

/// A gain target is the one that the settings of a stage give the model in a place.
pub open spec fn gain_is_due<A>(
    stage: &NamStage,
    place: Option<Box<NamSlot>>,
    handle: u64,
    target_db: Single,
    arith: A,
) -> bool where A: Fn(SampleOp) -> Single {
    &&& place matches Some(slot)
    &&& slot.handle == handle
    &&& if stage.normalize_enabled {
        call_ensures(
            arith,
            (SampleOp::Sum {
                a: slot.base_normalize_gain_db,
                b: stage.normalize_offset_db,
            },),
            target_db,
        )
    } else {
        target_db == Single::zero()
    }
}

proof fn lemma_the_gain_of_one_side_is_due<A>(
    stage: &NamStage,
    place: Option<Box<NamSlot>>,
    after: Option<Box<NamSlot>>,
    ch: usize,
    arith: A,
    dry: Seq<Single>,
    wet: Seq<Single>,
    runs: Seq<Run>,
    i: int,
) where A: Fn(SampleOp) -> Single
    requires
        side_heard(place, after, ch, stage.normalize(), arith, dry, wet, runs),
        0 <= i < runs.len(),
    ensures
        runs[i] is Block,
        runs[i]->Block_op matches BlockOp::NormalizeGain { handle, channel, target_db } ==> channel
            == ch && gain_is_due(stage, place, handle, target_db, arith),
{
    if let (Some(b), Some(a)) = (place, after) {
        lemma_the_gain_heads_for_the_correction_plus_the_offset(
            b.handle,
            b.base_normalize_gain_db,
            b.resample@[ch as int],
            a.resample@[ch as int],
            ch,
            stage.normalize(),
            arith,
            dry,
            wet,
            runs,
        );
    }
}

proof fn lemma_the_gain_of_a_channel_is_due<A>(
    stage: &NamStage,
    after: &NamStage,
    ch: usize,
    arith: A,
    dry: Seq<Single>,
    out: Seq<Single>,
    runs: Seq<Run>,
    i: int,
) where A: Fn(SampleOp) -> Single
    requires
        channel_heard(stage, after, ch, arith, dry, out, runs),
        0 <= i < runs.len(),
    ensures
        runs[i] is Block,
        runs[i]->Block_op matches BlockOp::NormalizeGain { handle, channel, target_db } ==> channel
            == ch && (gain_is_due(stage, stage.handover.playing(), handle, target_db, arith)
            || gain_is_due(stage, stage.handover.standby(), handle, target_db, arith)),
{
    let (playing, standby) = (stage.handover.playing(), stage.handover.standby());
    let (played, stood) = (after.handover.playing(), after.handover.standby());
    match stage.handover.crossfade {
        None => {
            lemma_the_gain_of_one_side_is_due(
                stage,
                playing,
                played,
                ch,
                arith,
                dry,
                out,
                runs,
                i,
            );
        },
        Some(fade) => {
            if fade.remaining == 0 {
                lemma_the_gain_of_one_side_is_due(
                    stage,
                    standby,
                    stood,
                    ch,
                    arith,
                    dry,
                    out,
                    runs,
                    i,
                );
            } else {
                let (outgoing, incoming) = choose|
                    outgoing: (Seq<Single>, Seq<Run>),
                    incoming: (Seq<Single>, Seq<Run>),
                | #[trigger]
                    both_heard(
                        stage,
                        after,
                        fade,
                        ch,
                        arith,
                        dry,
                        out,
                        runs,
                        outgoing,
                        incoming,
                    );
                let n = outgoing.1.len();
                if i < n {
                    assert(runs[i] == outgoing.1[i]);
                    lemma_the_gain_of_one_side_is_due(
                        stage,
                        playing,
                        played,
                        ch,
                        arith,
                        dry,
                        outgoing.0,
                        outgoing.1,
                        i,
                    );
                } else {
                    assert(runs[i] == incoming.1[i - n]);
                    lemma_the_gain_of_one_side_is_due(
                        stage,
                        standby,
                        stood,
                        ch,
                        arith,
                        dry,
                        incoming.0,
                        incoming.1,
                        i - n,
                    );
                }
            }
        },
    }
}

/// In every block, whatever plays or fades and at whatever rate, every run of a loudness ramp is of
/// a model that is in one of the two places, and heads for that model's correction plus the user's
/// offset while normalization is on, and for zero while it is off.
pub proof fn lemma_every_gain_of_a_block_is_due<A>(
    before: &NamStage,
    after: &NamStage,
    runs: Seq<Run>,
    arith: A,
    dry: Seq<Seq<Single>>,
    out: Seq<Seq<Single>>,
    n: int,
    i: int,
) where A: Fn(SampleOp) -> Single
    requires
        before.processed(after, runs, arith, dry, out, n),
        0 < dry.len() <= 2,
        0 <= i < runs.len(),
    ensures
        ({
            let due = |place: Option<Box<NamSlot>>, handle: u64, target_db: Single|
                place matches Some(slot) && slot.handle == handle && (if before.normalize_enabled {
                    call_ensures(
                        arith,
                        (SampleOp::Sum {
                            a: slot.base_normalize_gain_db,
                            b: before.normalize_offset_db,
                        },),
                        target_db,
                    )
                } else {
                    target_db == Single::zero()
                });
            runs[i]->Block_op matches BlockOp::NormalizeGain { handle, channel, target_db } ==> due(
                before.handover.playing(),
                handle,
                target_db,
            ) || due(before.handover.standby(), handle, target_db)
        }),
{
    let (played, heard, parts, wet) = choose|
        played: NamStage,
        heard: Seq<Seq<Single>>,
        parts: Seq<Seq<Run>>,
        wet: Seq<Seq<Single>>,
    | #[trigger]
        before.processed_via(after, runs, arith, dry, out, n, &played, heard, parts, wet);
    reveal_with_fuel(dsp::in_turn, 3);
    assert(channel_heard(before, &played, 0, arith, dry[0], heard[0], parts[0]));
    if heard.len() == 1 {
        assert(runs =~= parts[0]);
        lemma_the_gain_of_a_channel_is_due(
            before,
            &played,
            0,
            arith,
            dry[0],
            heard[0],
            parts[0],
            i,
        );
    } else {
        assert(channel_heard(before, &played, 1, arith, dry[1], heard[1], parts[1]));
        assert(parts.drop_last().last() == parts[0]);
        assert(runs =~= parts[0] + parts[1]);
        let at = parts[0].len();
        if i < at {
            lemma_the_gain_of_a_channel_is_due(
                before,
                &played,
                0,
                arith,
                dry[0],
                heard[0],
                parts[0],
                i,
            );
        } else {
            lemma_the_gain_of_a_channel_is_due(
                before,
                &played,
                1,
                arith,
                dry[1],
                heard[1],
                parts[1],
                i - at,
            );
        }
    }
}

/// What a channel sounds like before the bypass while nothing fades: an empty stage passes the
/// channel on and runs nothing, and what plays is heard as its loudness ramp gives it. Where a
/// crossfade has run out and only waits for the pen, what was faded in is heard in the same way.
pub proof fn lemma_one_place_is_heard_while_nothing_fades<A>(
    before: &NamStage,
    after: &NamStage,
    ch: usize,
    arith: A,
    dry: Seq<Single>,
    out: Seq<Single>,
    runs: Seq<Run>,
) where A: Fn(SampleOp) -> Single
    requires
        channel_heard(before, after, ch, arith, dry, out, runs),
        before.handover.crossfade matches Some(fade) ==> fade.remaining == 0,
    ensures
        ({
            let from = if before.handover.crossfade is None {
                before.handover.active as int
            } else {
                1 - before.handover.active
            };
            let place = before.handover.slots@[from];
            &&& place is None ==> out == dry && runs.len() == 0
            &&& place matches Some(slot) ==> {
                &&& runs.len() > 0
                &&& runs.last() matches Run::Block {
                    op: BlockOp::NormalizeGain { handle, channel, .. },
                    output,
                    ..
                }
                &&& handle == slot.handle
                &&& channel == ch
                &&& output == out
            }
        }),
{
    let from = if before.handover.crossfade is None {
        before.handover.active as int
    } else {
        1 - before.handover.active
    };
    let slots = before.handover.slots@;
    if let Some(b) = slots[from] {
        let a = if before.handover.crossfade is None {
            after.handover.playing()->0
        } else {
            after.handover.standby()->0
        };
        lemma_the_gain_heads_for_the_correction_plus_the_offset(
            b.handle,
            b.base_normalize_gain_db,
            b.resample@[ch as int],
            a.resample@[ch as int],
            ch,
            before.normalize(),
            arith,
            dry,
            out,
            runs,
        );
    }
}

/// What a channel sounds like before the bypass while one model fades into another: both run on the
/// same samples, what plays first, an empty place standing for the samples themselves, and every
/// sample is a step of the fade from the one that played to the one that stood by.
pub proof fn lemma_both_places_are_heard_while_one_fades<A>(
    before: &NamStage,
    after: &NamStage,
    fade: Crossfade,
    ch: usize,
    arith: A,
    dry: Seq<Single>,
    out: Seq<Single>,
    runs: Seq<Run>,
    outgoing: (Seq<Single>, Seq<Run>),
    incoming: (Seq<Single>, Seq<Run>),
    i: int,
) where A: Fn(SampleOp) -> Single
    requires
        before.wf(),
        before.handover.crossfade == Some(fade),
        both_heard(before, after, fade, ch, arith, dry, out, runs, outgoing, incoming),
        0 <= i < out.len(),
    ensures
        ({
            let playing = before.handover.slots@[before.handover.active as int];
            let standby = before.handover.slots@[1 - before.handover.active];
            let of = |slot: Box<NamSlot>, side: (Seq<Single>, Seq<Run>)|
                side.1.len() > 0 && (side.1.last() matches Run::Block {
                    op: BlockOp::NormalizeGain { handle, channel, .. },
                    output,
                    ..
                } && handle == slot.handle && channel == ch && output == side.0);
            &&& out.len() == dry.len()
            &&& runs == outgoing.1 + incoming.1
            &&& playing is None ==> outgoing.0 == dry && outgoing.1.len() == 0
            &&& standby is None ==> incoming.0 == dry && incoming.1.len() == 0
            &&& playing matches Some(slot) ==> of(slot, outgoing)
            &&& standby matches Some(slot) ==> of(slot, incoming)
            &&& i < fade.prime ==> out[i] == outgoing.0[i]
            &&& fade.prime <= i < fade.prime + fade.remaining ==> call_ensures(
                arith,
                (SampleOp::Fade {
                    outgoing: outgoing.0[i],
                    incoming: incoming.0[i],
                    progress: (fade.total - fade.remaining + i - fade.prime) as u32,
                    total: fade.total,
                },),
                out[i],
            )
        }),
{
    handover::lemma_a_fade_goes_from_the_outgoing_to_the_incoming(
        fade,
        arith,
        outgoing.0,
        incoming.0,
        out,
        i,
    );
    if let (Some(b), Some(a)) = (before.handover.playing(), after.handover.playing()) {
        lemma_the_gain_heads_for_the_correction_plus_the_offset(
            b.handle,
            b.base_normalize_gain_db,
            b.resample@[ch as int],
            a.resample@[ch as int],
            ch,
            before.normalize(),
            arith,
            dry,
            outgoing.0,
            outgoing.1,
        );
    }
    if let (Some(b), Some(a)) = (before.handover.standby(), after.handover.standby()) {
        lemma_the_gain_heads_for_the_correction_plus_the_offset(
            b.handle,
            b.base_normalize_gain_db,
            b.resample@[ch as int],
            a.resample@[ch as int],
            ch,
            before.normalize(),
            arith,
            dry,
            incoming.0,
            incoming.1,
        );
    }
}

/// While one model plays and the bypass has arrived, a stage that is off gives exactly what came
/// in, and one that is on what that model's loudness ramp gave: each channel's own where channels
/// are independent, and channel 0's on every channel where they are linked.
pub proof fn lemma_what_is_heard_of_the_model<A>(
    before: &NamStage,
    after: &NamStage,
    runs: Seq<Run>,
    arith: A,
    dry: Seq<Seq<Single>>,
    out: Seq<Seq<Single>>,
    n: int,
    slot: Box<NamSlot>,
    ch: int,
) where A: Fn(SampleOp) -> Single
    requires
        before.wf(),
        after.wf(),
        after.same_settings(before),
        before.processed(after, runs, arith, dry, out, n),
        before.handover.crossfade is None,
        before.handover.playing() == Some(slot),
        bypass::settles(arith),
        before.mix == before.mix_target,
        0 <= ch < dry.len() <= before.channels(),
        forall|c: int| 0 <= c < dry.len() ==> (#[trigger] dry[c]).len() == dry[0].len(),
    ensures
        !before.enabled ==> out == dry && after.mix == Single::zero(),
        before.enabled ==> after.mix == Single::one() && out.len() == dry.len() && exists|i: int|
            0 <= i < runs.len() && ((#[trigger] runs[i]) matches Run::Block {
                op: BlockOp::NormalizeGain { handle, channel, .. },
                output,
                ..
            } && handle == slot.handle && channel == (if before.independent && dry.len() > 1 {
                ch
            } else {
                0
            }) && output == out[ch]),
{
    let each = before.independent && dry.len() > 1;
    let (played, heard, parts, wet) = choose|
        played: NamStage,
        heard: Seq<Seq<Single>>,
        parts: Seq<Seq<Run>>,
        wet: Seq<Seq<Single>>,
    | #[trigger]
        before.processed_via(after, runs, arith, dry, out, n, &played, heard, parts, wet);
    assert forall|c: int| 0 <= c < heard.len() implies (#[trigger] heard[c]).len() == dry[c].len()
        && parts[c].len() > 0 && (parts[c].last() matches Run::Block {
        op: BlockOp::NormalizeGain { handle, channel, .. },
        output,
        ..
    } && handle == slot.handle && channel == c && output == heard[c]) by {
        assert(channel_heard(before, &played, c as usize, arith, dry[c], heard[c], parts[c]));
        let a = played.handover.playing()->0;
        lemma_the_gain_heads_for_the_correction_plus_the_offset(
            slot.handle,
            slot.base_normalize_gain_db,
            slot.resample@[c],
            a.resample@[c],
            c as usize,
            before.normalize(),
            arith,
            dry[c],
            heard[c],
            parts[c],
        );
    }
    assert forall|c: int| 0 <= c < wet.len() implies (#[trigger] dry[c]).len() == wet[c].len() by {
        let at = if each {
            c
        } else {
            0
        };
        assert(wet[c] == heard[at]);
        assert(heard[at].len() == dry[at].len());
    }
    bypass::lemma_a_settled_bypass_gives_one_side(
        arith,
        before.enabled,
        dry,
        wet,
        out,
        after.mix,
    );
    if before.enabled {
        reveal_with_fuel(dsp::in_turn, 3);
        let at = if each {
            ch
        } else {
            0
        };
        assert(wet[ch] == heard[at]);
        assert(heard[at].len() == dry[at].len());
        if heard.len() == 1 {
            assert(runs =~= parts[0]);
            assert(runs[runs.len() - 1] == parts[0].last());
        } else {
            assert(parts.drop_last().last() == parts[0]);
            assert(runs =~= parts[0] + parts[1]);
            let i = if at == 0 {
                parts[0].len() - 1
            } else {
                runs.len() - 1
            };
            assert(runs[i] == parts[at].last());
        }
    }
}

/// A stage with no model in it runs nothing, and gives exactly what came in once the bypass, which
/// heads for the dry side, has arrived there.
pub proof fn lemma_an_empty_model_stage_passes_the_signal<A>(
    before: &NamStage,
    after: &NamStage,
    runs: Seq<Run>,
    arith: A,
    dry: Seq<Seq<Single>>,
    out: Seq<Seq<Single>>,
    n: int,
) where A: Fn(SampleOp) -> Single
    requires
        before.wf(),
        after.wf(),
        after.same_settings(before),
        before.processed(after, runs, arith, dry, out, n),
        before.handover.crossfade is None,
        before.handover.playing() is None,
        bypass::settles(arith),
        0 < dry.len() <= before.channels(),
        forall|c: int| 0 <= c < dry.len() ==> (#[trigger] dry[c]).len() == dry[0].len(),
    ensures
        before.mix_target == Single::zero(),
        runs.len() == 0,
        before.mix == Single::zero() ==> out == dry && after.mix == Single::zero(),
{
    let each = before.independent && dry.len() > 1;
    let (played, heard, parts, wet) = choose|
        played: NamStage,
        heard: Seq<Seq<Single>>,
        parts: Seq<Seq<Run>>,
        wet: Seq<Seq<Single>>,
    | #[trigger]
        before.processed_via(after, runs, arith, dry, out, n, &played, heard, parts, wet);
    assert(before.processed_via(after, runs, arith, dry, out, n, &played, heard, parts, wet));
    assert forall|c: int| 0 <= c < heard.len() implies #[trigger] heard[c] == dry[c]
        && parts[c].len() == 0 by {
        assert(channel_heard(before, &played, c as usize, arith, dry[c], heard[c], parts[c]));
    }
    reveal_with_fuel(dsp::in_turn, 3);
    assert(heard[0] == dry[0]);
    if heard.len() == 2 {
        assert(heard[1] == dry[1]);
        assert(parts.drop_last().last() == parts[0]);
    }
    assert forall|c: int| 0 <= c < wet.len() implies (#[trigger] dry[c]).len() == wet[c].len() by {
        assert(wet[c] == heard[if each {
            c
        } else {
            0
        }]);
    }
    if before.mix == Single::zero() {
        bypass::lemma_a_settled_bypass_gives_one_side(arith, false, dry, wet, out, after.mix);
    }
}

/// The bypass of every channel starts from where the stage's stands and heads for the wet side
/// exactly where the stage is on and, when the block is done, something plays or is being faded in.
pub proof fn lemma_the_model_stage_blends_from_where_it_stands<A>(
    before: &NamStage,
    after: &NamStage,
    runs: Seq<Run>,
    arith: A,
    dry: Seq<Seq<Single>>,
    out: Seq<Seq<Single>>,
    n: int,
    ch: int,
    target: Single,
) where A: Fn(SampleOp) -> Single
    requires
        before.wf(),
        after.wf(),
        before.processed(after, runs, arith, dry, out, n),
        0 <= ch < dry.len() <= before.channels(),
        out[ch].len() > 0,
        target == Single::switch(
            after.enabled && (after.handover.slots@[after.handover.active as int] is Some || (
            after.handover.crossfade is Some && after.handover.slots@[1
                - after.handover.active] is Some)),
        ),
    ensures
        exists|wet: Single, mix: Single|
            {
                &&& call_ensures(arith, (SampleOp::Glide { mix: before.mix, target },), mix)
                &&& #[trigger] call_ensures(
                    arith,
                    (SampleOp::Blend { dry: dry[ch][0], wet, mix },),
                    out[ch][0],
                )
            },
{
    let (played, heard, parts, wet) = choose|
        played: NamStage,
        heard: Seq<Seq<Single>>,
        parts: Seq<Seq<Run>>,
        wet: Seq<Seq<Single>>,
    | #[trigger]
        before.processed_via(after, runs, arith, dry, out, n, &played, heard, parts, wet);
    assert(before.processed_via(after, runs, arith, dry, out, n, &played, heard, parts, wet));
    let ends = choose|ends: Seq<Single>| #[trigger]
        bypass::blended_to(arith, before.mix, after.mix_target, dry, wet, out, ends)
            && ends.last() == after.mix;
    assert(bypass::channel_blended(
        arith,
        before.mix,
        after.mix_target,
        dry[ch],
        wet[ch],
        out[ch],
        ends[ch],
    ));
    bypass::lemma_the_mix_moves_before_the_sample(
        arith,
        before.mix,
        after.mix_target,
        dry,
        wet,
        out,
        after.mix,
        ch,
    );
}

/// A model that is handed over is faded in once it has come through its own delay, and an emptied
/// stage fades at once; the settings stay, and the bypass moves only where nothing of it could be
/// heard: where no model played and none was fading.
pub proof fn lemma_a_handover_waits_for_the_models_delay(
    before: &NamStage,
    after: &NamStage,
    incoming: Option<Box<NamSlot>>,
)
    requires
        before.wf(),
        after.wf(),
        before.handover_begun(after, incoming),
    ensures
        after.handover.crossfade matches Some(fade) && fade.remaining == fade.total && fade.total
            == before.handover.crossfade_total_samples && fade.prime == (if incoming is Some
            && (incoming->0).resample@[0] is Some {
            ((incoming->0).resample@[0]->0).latency_samples
        } else {
            0
        }),
        after.handover.slots@[1 - before.handover.active] == incoming,
        after.handover.slots@[before.handover.active as int] == before.handover.slots@[before.handover.active as int],
        after.enabled == before.enabled,
        after.normalize_enabled == before.normalize_enabled,
        after.normalize_offset_db == before.normalize_offset_db,
        after.independent == before.independent,
        after.mix == (if before.handover.slots@[before.handover.active as int] is None
            && before.handover.crossfade is None {
            Single::switch(before.enabled && incoming is Some)
        } else {
            before.mix
        }),
{
}

/// A fresh instance of a model resamples exactly where the model has a rate of its own, on every
/// channel by internal blocks that span the same time at both rates, with nothing waiting in its
/// input queue and one whole block in its output queue, and is then as late as its round trip;
/// otherwise it is not late at all. Its gain is the correction that the model declares, or none.
pub proof fn lemma_an_instance_fits_its_model(
    slot: &NamSlot,
    model: ModelInfo,
    engine_rate: SampleRate,
    max_block_size: usize,
    channels: nat,
    ch: int,
)
    requires
        engine_rate.wf(),
        model.sample_rate.wf(),
        slot.made_for(model, engine_rate, max_block_size, channels),
        0 <= ch < channels,
    ensures
        slot.handle == model.handle,
        slot.resample@.len() == channels,
        slot.resample@[ch] is None <==> model.sample_rate.hz == engine_rate.hz,
        slot.resample@[ch] is None ==> slot.latency() == 0 && slot.state_block == max_block_size,
        slot.resample@[ch] matches Some(r) ==> {
            &&& r.engine_in_fifo@.len() == 0
            &&& r.engine_out_fifo@.len() == r.engine_block
            &&& r.engine_block * model.sample_rate.hz == r.model_block * engine_rate.hz
            &&& r.latency_samples == slot.latency()
            &&& slot.state_block == r.model_block
        },
        model.loudness_correction_db matches Some(db) ==> slot.base_normalize_gain_db == db,
        model.loudness_correction_db is None ==> slot.base_normalize_gain_db == Single::zero(),
{
    assert(slot.resample@[ch] is Some <==> slot.resample@[0] is Some);
    if model.sample_rate.hz != engine_rate.hz {
        resample::lemma_internal_blocks_span_the_same_time(
            engine_rate.hz as int,
            model.sample_rate.hz as int,
        );
    }
}

/// Every control of this stage moves its own figure to the value it is given and nothing else; any
/// other parameter of the registry leaves the stage alone. Switching the stage on has the bypass
/// head for the wet side only where there is something to hear.
pub proof fn lemma_a_change_moves_one_figure(stage: &NamStage, i: int, value: Single)
    requires
        stage.wf(),
        0 <= i < registry::registry_entries().len(),
    ensures
        ({
            let key = registry::registry_entries()[i].key@;
            let after = stage.changed_by(
                ParamChange { id: registry::registry_entries()[i].id, value },
            );
            let audible = stage.handover.slots@[stage.handover.active as int] is Some || (
            stage.handover.crossfade is Some && stage.handover.slots@[1
                - stage.handover.active] is Some);
            &&& after.handover == stage.handover
            &&& after.mix == stage.mix
            &&& after.mix_target == Single::switch(after.enabled && audible)
            &&& key == "nam.enabled"@ ==> after.enabled == value.means_on()
            &&& key != "nam.enabled"@ ==> after.enabled == stage.enabled
            &&& key == "nam.normalize_enabled"@ ==> after.normalize_enabled == value.means_on()
            &&& key != "nam.normalize_enabled"@ ==> after.normalize_enabled
                == stage.normalize_enabled
            &&& key == "nam.normalize_offset_db"@ ==> after.normalize_offset_db == value
            &&& key != "nam.normalize_offset_db"@ ==> after.normalize_offset_db
                == stage.normalize_offset_db
            &&& key == "global.independent_channels"@ ==> after.independent == value.means_on()
            &&& key != "global.independent_channels"@ ==> after.independent == stage.independent
        }),
{
    identity::lemma_identities_are_told_apart();
    lemma_the_model_stages_entries();
    let entries = registry::registry_entries();
    assert(entries[i].id == param::id_of(entries[i].key@));
}

proof fn lemma_the_model_stages_entries()
    ensures
        registry::registry_entries()[7] == registry::nam_enabled(),
        registry::registry_entries()[7].key@ == "nam.enabled"@,
        registry::registry_entries()[8] == registry::nam_normalize_enabled(),
        registry::registry_entries()[8].key@ == "nam.normalize_enabled"@,
        registry::registry_entries()[9] == registry::nam_normalize_offset_db(),
        registry::registry_entries()[9].key@ == "nam.normalize_offset_db"@,
        registry::registry_entries()[31] == registry::global_independent_channels(),
        registry::registry_entries()[31].key@ == "global.independent_channels"@,
{
    reveal(registry::registry_entries);
}

/// A fresh stage is as if every parameter had just been set to its default: setting any of them to
/// it changes nothing.
pub proof fn lemma_a_fresh_model_stage_is_at_its_defaults(stage: &NamStage, i: int)
    requires
        stage.wf(),
        stage.fresh(),
        0 <= i < registry::registry_entries().len(),
    ensures
        stage.changed_by(
            ParamChange {
                id: registry::registry_entries()[i].id,
                value: registry::registry_entries()[i].kind.default_spec(),
            },
        ) == *stage,
{
    identity::lemma_identities_are_told_apart();
    lemma_the_model_stages_entries();
    let entries = registry::registry_entries();
    lemma_a_change_moves_one_figure(stage, i, entries[i].kind.default_spec());
}

/// What is reported says of the stage what is so: that a model plays, and that a handover is under
/// way, each under its own identity.
pub proof fn lemma_the_model_stage_reports_what_is_so(stage: &NamStage)
    ensures
        stage.reported().len() == 2,
        stage.reported()[0].id == param::id_of("telemetry.nam.loaded"@).value,
        stage.reported()[0].value.means_on() == (
        stage.handover.slots@[stage.handover.active as int] is Some),
        stage.reported()[1].id == param::id_of("telemetry.nam.handover_active"@).value,
        stage.reported()[1].value.means_on() == (stage.handover.crossfade is Some),
{
}

/// A reset clears, for either place and every channel, the resampler of a model that has a rate of
/// its own, and nothing else.
pub proof fn lemma_a_reset_clears_every_resampler(stage: &NamStage, op: BlockOp)
    requires
        stage.wf(),
    ensures
        stage.cleared_by_reset().contains(op) <==> (op matches BlockOp::ResampledModel {
            handle,
            channel,
        } && channel < stage.handover.prepared_for.channel_config.outputs() && exists|p: int|
            0 <= p < 2 && (#[trigger] stage.handover.slots@[p] matches Some(slot) && slot.handle
                == handle && slot.resample@[channel as int] is Some)),
{
    let slots = stage.handover.slots@;
    let cleared = stage.cleared_by_reset();
    let first = resamplers_of(slots[0]);
    let second = resamplers_of(slots[1]);
    assert(slots[0] == stage.handover.playing() || slots[0] == stage.handover.standby());
    assert(slots[1] == stage.handover.playing() || slots[1] == stage.handover.standby());
    if cleared.contains(op) {
        let i = choose|i: int| 0 <= i < cleared.len() && cleared[i] == op;
        if i < first.len() {
            let slot = slots[0]->0;
            assert(first[i] == op);
            assert(slot.resample@[i] is Some);
        } else {
            let slot = slots[1]->0;
            assert(second[i - first.len()] == op);
            assert(slot.resample@[i - first.len()] is Some);
        }
    }
    if let BlockOp::ResampledModel { handle, channel } = op {
        if channel < stage.channels() && exists|p: int|
            0 <= p < 2 && (#[trigger] slots[p] matches Some(slot) && slot.handle == handle
                && slot.resample@[channel as int] is Some) {
            let p = choose|p: int|
                0 <= p < 2 && (#[trigger] slots[p] matches Some(slot) && slot.handle == handle
                    && slot.resample@[channel as int] is Some);
            let slot = slots[p]->0;
            assert(slot.resample@[0] is Some);
            assert(resamplers_of(slots[p])[channel as int] == op);
            if p == 0 {
                assert(cleared[channel as int] == op);
            } else {
                assert(cleared[first.len() + channel] == op);
            }
        }
    }
}

/// An offered model is faded in, parked or left on offer, and nothing else ever happens to it: one
/// prepared for this very chain stands by where the pen is free and stays on offer where it is not;
/// one prepared for other figures goes to the pen with them, and the chain plays on. Any other
/// offer is left as it is.
pub proof fn lemma_an_offer_is_faded_in_parked_or_left(
    before: &NamStage,
    offer: Option<Resource>,
    after: &NamStage,
    left: Option<Resource>,
)
    requires
        before.wf(),
        before.can_take(offer),
        before.accepted(offer, after, left),
    ensures
        !(offer matches Some(r) && r is Nam) ==> left == offer && *after == *before,
        offer matches Some(Resource::Nam(slot, ctx)) ==> {
            let ours = ctx == before.handover.prepared_for;
            let active = before.handover.active as int;
            &&& ours && before.handover.retired is Some ==> left == offer && *after == *before
            &&& ours && before.handover.retired is None ==> {
                &&& left is None
                &&& after.handover.slots@[1 - active] == Some(slot)
                &&& after.handover.slots@[active] == before.handover.slots@[active]
                &&& after.handover.crossfade is Some
            }
            &&& !ours ==> {
                &&& left is None
                &&& after.handover.retired matches Some(parked)
                &&& parked.slot == slot
                &&& parked.ctx == ctx
                &&& after.handover.slots == before.handover.slots
                &&& after.handover.active == before.handover.active
                &&& after.handover.crossfade == before.handover.crossfade
                &&& after.mix == before.mix
                &&& after.mix_target == before.mix_target
            }
        },
{
}

/// Whatever plays or fades, once the bypass has arrived on the wet side every channel carries what
/// was rendered: of its own samples where channels are independent, and of channel 0's on every
/// channel where they are linked.
pub proof fn lemma_every_channel_carries_what_was_rendered<A>(
    before: &NamStage,
    after: &NamStage,
    runs: Seq<Run>,
    arith: A,
    dry: Seq<Seq<Single>>,
    out: Seq<Seq<Single>>,
    n: int,
    ch: int,
    from: int,
) where A: Fn(SampleOp) -> Single
    requires
        before.wf(),
        before.processed(after, runs, arith, dry, out, n),
        bypass::settles(arith),
        before.mix == Single::one(),
        after.mix_target == Single::one(),
        0 <= ch < dry.len() <= before.channels(),
        forall|c: int| 0 <= c < dry.len() ==> (#[trigger] dry[c]).len() == dry[0].len(),
        from == (if before.independent && dry.len() > 1 {
            ch
        } else {
            0
        }),
    ensures
        out.len() == dry.len(),
        after.mix == Single::one(),
        exists|played: NamStage, part: Seq<Run>| #[trigger]
            channel_heard(before, &played, from as usize, arith, dry[from], out[ch], part),
{
    let each = before.independent && dry.len() > 1;
    let (played, heard, parts, wet) = choose|
        played: NamStage,
        heard: Seq<Seq<Single>>,
        parts: Seq<Seq<Run>>,
        wet: Seq<Seq<Single>>,
    | #[trigger]
        before.processed_via(after, runs, arith, dry, out, n, &played, heard, parts, wet);
    assert(before.processed_via(after, runs, arith, dry, out, n, &played, heard, parts, wet));
    assert forall|c: int| 0 <= c < heard.len() implies (#[trigger] heard[c]).len()
        == dry[c].len() by {
        assert(channel_heard(before, &played, c as usize, arith, dry[c], heard[c], parts[c]));
        lemma_rendering_keeps_the_length(
            before,
            &played,
            c as usize,
            arith,
            dry[c],
            heard[c],
            parts[c],
        );
    }
    assert forall|c: int| 0 <= c < wet.len() implies (#[trigger] dry[c]).len() == wet[c].len() by {
        let at = if each {
            c
        } else {
            0
        };
        assert(wet[c] == heard[at]);
        assert(heard[at].len() == dry[at].len());
    }
    bypass::lemma_a_settled_bypass_gives_one_side(arith, true, dry, wet, out, after.mix);
    assert(wet[ch] == heard[from]);
    assert(channel_heard(
        before,
        &played,
        from as usize,
        arith,
        dry[from],
        heard[from],
        parts[from],
    ));
}

proof fn lemma_rendering_keeps_the_length<A>(
    before: &NamStage,
    after: &NamStage,
    ch: usize,
    arith: A,
    dry: Seq<Single>,
    out: Seq<Single>,
    runs: Seq<Run>,
) where A: Fn(SampleOp) -> Single
    requires
        channel_heard(before, after, ch, arith, dry, out, runs),
    ensures
        out.len() == dry.len(),
{
}

/// What a block leaves alone: the settings, and of the handover what it was prepared for. Where
/// only the queues have moved, nothing else is different: neither the bypass, nor which place
/// plays, nor the crossfade or the pen, nor which model is in which place.
pub proof fn lemma_only_the_queues_move(before: &NamStage, after: &NamStage)
    requires
        before.only_queues_moved(after),
    ensures
        after.enabled == before.enabled,
        after.normalize_enabled == before.normalize_enabled,
        after.normalize_offset_db == before.normalize_offset_db,
        after.independent == before.independent,
        after.mix == before.mix,
        after.mix_target == before.mix_target,
        after.handover.prepared_for == before.handover.prepared_for,
        after.handover.crossfade_total_samples == before.handover.crossfade_total_samples,
        after.handover.active == before.handover.active,
        after.handover.crossfade == before.handover.crossfade,
        after.handover.retired == before.handover.retired,
        before.handover.active < 2 ==> forall|p: int|
            0 <= p < 2 ==> match ((#[trigger] before.handover.slots@[p]), after.handover.slots@[p]) {
                (Some(b), Some(a)) => a.handle == b.handle && a.base_normalize_gain_db
                    == b.base_normalize_gain_db && a.state_block == b.state_block
                    && a.resample@.len() == b.resample@.len(),
                (None, None) => true,
                _ => false,
            },
{
    let active = before.handover.active as int;
    assert forall|p: int| 0 <= p < 2 && before.handover.active < 2 implies match (
        (#[trigger] before.handover.slots@[p]),
        after.handover.slots@[p],
    ) {
        (Some(b), Some(a)) => a.handle == b.handle && a.base_normalize_gain_db
            == b.base_normalize_gain_db && a.state_block == b.state_block && a.resample@.len()
            == b.resample@.len(),
        (None, None) => true,
        _ => false,
    } by {
        assert(p == active || p == 1 - active);
    }
}

/// Settings that are the same are the same in every control.
pub proof fn lemma_the_same_settings_agree_in_every_control(a: &NamStage, b: &NamStage)
    ensures
        a.same_settings(b) <==> a.enabled == b.enabled && a.normalize_enabled
            == b.normalize_enabled && a.normalize_offset_db == b.normalize_offset_db
            && a.independent == b.independent,
{
}

/// After a reset no signal waits anywhere: in either place and on every channel the input queue is
/// empty, and the output queue holds one block of silence.
pub proof fn lemma_no_signal_waits_after_a_reset(stage: &NamStage, p: int, ch: int, i: int)
    requires
        stage.wf(),
        stage.all_primed(),
        0 <= p < 2,
        0 <= ch < stage.channels(),
    ensures
        stage.handover.slots@[p] matches Some(slot) ==> (slot.resample@[ch] matches Some(r) ==> {
            &&& r.engine_in_fifo@.len() == 0
            &&& r.engine_out_fifo@.len() == r.engine_block
            &&& 0 <= i < r.engine_block ==> r.engine_out_fifo@[i] == Single::zero()
        }),
{
    let slots = stage.handover.slots@;
    assert(slots[p] == stage.handover.playing() || slots[p] == stage.handover.standby());
    if let Some(slot) = slots[p] {
        assert(slot.primed());
        assert(slot.resample@.len() == stage.channels());
        if let Some(r) = slot.resample@[ch] {
            assert(r.primed());
        }
    }
}

/// What is in the pen is never lost: it is offered to the return ring, whole and once, with the
/// figures it was prepared for; where the ring takes it, it has gone there and the pen is free, and
/// where the ring is full it is still in the pen. Nothing else changes.
pub proof fn lemma_what_is_in_the_pen_is_never_lost(
    before: &NamStage,
    after: &NamStage,
    answered: Seq<(Resource, bool)>,
    answered_after: Seq<(Resource, bool)>,
)
    requires
        before.returned(after, answered, answered_after),
    ensures
        before.handover.retired is None ==> answered_after.len() == answered.len(),
        before.handover.retired matches Some(parked) ==> {
            let (offered, taken) = answered_after.last();
            &&& answered_after.len() == answered.len() + 1
            &&& answered_after.drop_last() == answered
            &&& offered == Resource::Nam(parked.slot, parked.ctx)
            &&& taken ==> after.handover.retired is None && ring::resources_sent(answered_after)
                == ring::resources_sent(answered).push(Resource::Nam(parked.slot, parked.ctx))
            &&& !taken ==> after.handover.retired == Some(parked) && ring::resources_sent(
                answered_after,
            ) == ring::resources_sent(answered)
        },
        after.handover.slots == before.handover.slots,
        after.handover.active == before.handover.active,
        after.handover.crossfade == before.handover.crossfade,
        after.mix == before.mix,
        after.mix_target == before.mix_target,
        after.same_settings(before),
{
    if before.handover.retired is Some {
        assert(answered_after.drop_last() =~= answered);
    }
}

/// Emptying the stage fades what plays into nothing and parks what stood by; while the pen is
/// occupied it does nothing.
pub proof fn lemma_an_emptied_stage_fades_into_nothing(before: &NamStage, after: &NamStage)
    requires
        before.wf(),
        after.wf(),
        before.unloaded(after),
    ensures
        before.handover.retired is Some ==> *after == *before,
        before.handover.retired is None ==> {
            let active = before.handover.active as int;
            &&& after.handover.slots@[active] == before.handover.slots@[active]
            &&& after.handover.slots@[1 - active] is None
            &&& after.handover.crossfade matches Some(fade)
            &&& fade.remaining == before.handover.crossfade_total_samples
            &&& fade.prime == 0
            &&& before.handover.slots@[1 - active] matches Some(slot) ==> (
            after.handover.retired matches Some(parked) && parked.slot == slot)
            &&& before.handover.slots@[1 - active] is None ==> after.handover.retired is None
            &&& after.mix_target == Single::switch(
                before.enabled && before.handover.slots@[active] is Some,
            )
        },
{
}

/// The stage is as late as the model that plays makes it: by its round trip where that model
/// resamples, and not at all where it does not or where nothing plays, whatever stands by.
pub proof fn lemma_the_stage_is_as_late_as_what_plays(stage: &NamStage, ch: int)
    requires
        stage.wf(),
        0 <= ch < stage.channels(),
    ensures
        ({
            let playing = stage.handover.slots@[stage.handover.active as int];
            &&& playing is None ==> stage.latency() == 0
            &&& playing matches Some(slot) ==> match slot.resample@[ch] {
                Some(r) => stage.latency() == r.latency_samples,
                None => stage.latency() == 0,
            }
        }),
{
    if let Some(slot) = stage.handover.playing() {
        assert(slot.resample@[ch] is Some <==> slot.resample@[0] is Some);
    }
}

} // verus!
