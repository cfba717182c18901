//! The noise gate stage: a detector for every channel, and the bypass.

use vstd::prelude::*;

use crate::bypass;
use crate::descriptor::{continuous_default, stepped_default_on};
use crate::dsp;
use crate::dsp::{BlockOp, Convolve, Rack, Run, SampleOp};
use crate::identity;
use crate::param;
use crate::param::{ParamChange, ParamId, TelemetryEntry};
use crate::prepare::PrepareContext;
use crate::registry;
use crate::single::Single;
use crate::stage_io::StageIo;

verus! {

/// What every detector of the stage is set to.
#[derive(Debug, Clone, Copy, PartialEq, Eq, Structural)]
pub struct GateParams {
    pub threshold_db: Single,
    pub attack_ms: Single,
    pub hold_ms: Single,
    pub release_ms: Single,
}

pub struct GateStage {
    pub prepared_for: PrepareContext,
    pub params: GateParams,
    pub independent: bool,
    pub enabled: bool,
    pub mix: Single,
    pub mix_target: Single,
}

/// Prepares the noise gate.
pub struct GatePrep;

impl GatePrep {
    /// A stage with every control at its default and the bypass settled.
    pub fn prepare(&self, ctx: &PrepareContext) -> (stage: GateStage)
        ensures
            stage.wf(),
            stage.fresh(),
            stage.prepared_for == *ctx,
            stage.params == (GateParams {
                threshold_db: registry::gate_threshold_db().kind->default,
                attack_ms: registry::gate_attack_ms().kind->default,
                hold_ms: registry::gate_hold_ms().kind->default,
                release_ms: registry::gate_release_ms().kind->default,
            }),
            stage.enabled == (registry::gate_enabled().kind->default_index == 1),
            !stage.independent,
            stage.mix == stage.mix_target,
    {
        let enabled: bool = stepped_default_on(registry::gate_enabled());
        GateStage {
            prepared_for: *ctx,
            params: GateParams {
                threshold_db: continuous_default(registry::gate_threshold_db()),
                attack_ms: continuous_default(registry::gate_attack_ms()),
                hold_ms: continuous_default(registry::gate_hold_ms()),
                release_ms: continuous_default(registry::gate_release_ms()),
            },
            independent: false,
            enabled,
            mix: Single::switch(enabled),
            mix_target: Single::switch(enabled),
        }
    }
}

/// Every detector once, in order: each on its own channel, or all of them on channel 0's samples.
pub open spec fn detector_runs(
    each: bool,
    dry: Seq<Seq<Single>>,
    gated: Seq<Seq<Single>>,
) -> Seq<Run> {
    Seq::new(
        gated.len(),
        |c: int|
            Run::Block {
                op: BlockOp::Gate { channel: c as usize },
                input: dry[if each {
                    c
                } else {
                    0
                }],
                output: gated[c],
            },
    )
}

impl GateStage {
    /// The bypass heads for the wet side exactly while the stage is on.
    pub open spec fn wf(&self) -> bool {
        self.mix_target == Single::switch(self.enabled)
    }

    /// Every control at its default and the bypass settled.
    pub open spec fn fresh(&self) -> bool {
        &&& self.params.threshold_db == registry::gate_threshold_db().kind.default_spec()
        &&& self.params.attack_ms == registry::gate_attack_ms().kind.default_spec()
        &&& self.params.hold_ms == registry::gate_hold_ms().kind.default_spec()
        &&& self.params.release_ms == registry::gate_release_ms().kind.default_spec()
        &&& self.enabled == registry::gate_enabled().kind.default_spec().means_on()
        &&& self.independent == registry::global_independent_channels().kind.default_spec().means_on()
        &&& self.mix == self.mix_target
    }

    pub open spec fn channels(&self) -> nat {
        self.prepared_for.channels()
    }

    /// Every channel is gated on its own samples; otherwise channel 0's stand for all.
    pub open spec fn gates_each(&self, channels: nat) -> bool {
        self.independent && channels > 1
    }

    /// Everything one block does: what each detector gives, what each channel then carries, and
    /// the bypass blend that has the last word. Nothing runs but the detectors. While channels are
    /// linked only channel 0's is heard; the others run along on the same samples, so that they
    /// are settled when the channels become independent.
    pub open spec fn processed_via<A>(
        &self,
        runs: Seq<Run>,
        arith: A,
        dry: Seq<Seq<Single>>,
        out: Seq<Seq<Single>>,
        end: Single,
        gated: Seq<Seq<Single>>,
        wet: Seq<Seq<Single>>,
    ) -> bool where A: Fn(SampleOp) -> Single {
        let each = self.gates_each(dry.len());
        &&& gated.len() == (if each {
            dry.len()
        } else {
            self.channels()
        })
        &&& runs == detector_runs(each, dry, gated)
        &&& wet.len() == dry.len()
        &&& forall|ch: int|
            0 <= ch < wet.len() ==> #[trigger] wet[ch] == gated[if each {
                ch
            } else {
                0
            }]
        &&& bypass::blended(arith, self.mix, self.mix_target, dry, wet, out, end)
    }

    pub open spec fn processed<A>(
        &self,
        runs: Seq<Run>,
        arith: A,
        dry: Seq<Seq<Single>>,
        out: Seq<Seq<Single>>,
        end: Single,
    ) -> bool where A: Fn(SampleOp) -> Single {
        exists|gated: Seq<Seq<Single>>, wet: Seq<Seq<Single>>| #[trigger]
            self.processed_via(runs, arith, dry, out, end, gated, wet)
    }

    /// Runs one block in place. Linked channels share what channel 0's detector makes, while the
    /// others run along; independent ones each run their own.
    pub fn process<S, B, C, A>(
        &mut self,
        io: &mut StageIo,
        rack: &mut Rack<S, B, C>,
        arith: A,
    ) where
        B: Fn(BlockOp, Vec<Single>, S) -> (Vec<Single>, S),
        C: Fn(Convolve, Vec<Single>, S) -> (Vec<Single>, Vec<Single>, S),
        A: Fn(SampleOp) -> Single + Copy,

        requires
            old(self).wf(),
            old(io).wf(),
            0 < old(io).channels@.len() <= old(self).channels(),
            old(rack).wf(),
            dsp::computes(arith),
        ensures
            final(self).wf(),
            final(io).wf(),
            final(io).same_shape(old(io)),
            *final(self) == (GateStage { mix: final(self).mix, ..*old(self) }),
            final(rack).went_on(old(rack)),
            old(self).processed(
                final(rack).since(old(rack)),
                arith,
                old(io).samples(),
                final(io).samples(),
                final(self).mix,
            ),
    {
        let count: usize = io.channels.len();
        let dry: Vec<Vec<Single>> = io.capture();
        let ghost dries = io.samples();
        let each: bool = self.independent && count > 1;
        let detectors: usize = if each {
            count
        } else {
            self.prepared_for.channel_config.output_channels()
        };
        let ghost mut gated: Seq<Seq<Single>> = Seq::empty();
        let mut ch: usize = 0;
        proof {
            rack.lemma_nothing_yet();
            assert(detector_runs(each, dries, gated) =~= Seq::empty());
        }
        while ch < detectors
            invariant
                io.wf(),
                io.same_shape(old(io)),
                rack.went_on(old(rack)),
                rack.since(old(rack)) == detector_runs(each, dries, gated),
                ch <= detectors,
                gated.len() == ch,
                0 < count == io.channels@.len(),
                each ==> detectors == count,
                dry@.len() == count,
                dries == old(io).samples(),
                forall|c: int|
                    0 <= c < count ==> (#[trigger] dry@[c])@ == dries[c] && dry@[c]@.len()
                        == io.frames,
                forall|c: int|
                    0 <= c < ch && (each || c == 0) ==> (#[trigger] io.channels@[c])@ == gated[c],
            decreases detectors - ch,
        {
            let heard: usize = if each {
                ch
            } else {
                0
            };
            let input: Vec<Single> = dsp::copy_samples(&dry[heard]);
            let ghost earlier = *rack;
            let out: Vec<Single> = rack.run(BlockOp::Gate { channel: ch }, input);
            proof {
                let grown = gated.push(out@);
                Rack::lemma_went_on(old(rack), &earlier, rack);
                assert(detector_runs(each, dries, grown) =~= detector_runs(each, dries, gated)
                    + seq![
                    Run::Block {
                        op: BlockOp::Gate { channel: ch },
                        input: dries[heard as int],
                        output: out@,
                    },
                ]);
                gated = grown;
            }
            if each || ch == 0 {
                io.put(ch, out);
            }
            ch += 1;
        }
        if !each {
            io.duplicate_first();
        }
        let ghost wet = io.samples();
        let end: Single = bypass::blend(io, &dry, self.mix, self.mix_target, arith);
        self.mix = end;
        proof {
            assert(Seq::new(dry@.len(), |c: int| dry@[c]@) =~= dries);
            assert(old(self).processed_via(
                rack.since(old(rack)),
                arith,
                dries,
                io.samples(),
                end,
                gated,
                wet,
            ));
        }
    }

    /// This stage after a parameter change: one that is not its own leaves it as it is.
    pub open spec fn changed_by(&self, change: ParamChange) -> GateStage {
        let on = change.value.means_on();
        if change.id == param::id_of("gate.enabled"@) {
            GateStage { enabled: on, mix_target: Single::switch(on), ..*self }
        } else if change.id == param::id_of("gate.threshold_db"@) {
            GateStage {
                params: GateParams { threshold_db: change.value, ..self.params },
                ..*self
            }
        } else if change.id == param::id_of("gate.attack_ms"@) {
            GateStage { params: GateParams { attack_ms: change.value, ..self.params }, ..*self }
        } else if change.id == param::id_of("gate.hold_ms"@) {
            GateStage { params: GateParams { hold_ms: change.value, ..self.params }, ..*self }
        } else if change.id == param::id_of("gate.release_ms"@) {
            GateStage { params: GateParams { release_ms: change.value, ..self.params }, ..*self }
        } else if change.id == param::id_of("global.independent_channels"@) {
            GateStage { independent: on, ..*self }
        } else {
            *self
        }
    }

    /// A change of one of the detectors' own figures.
    pub open spec fn concerns_detectors(change: ParamChange) -> bool {
        &&& change.id != param::id_of("gate.enabled"@)
        &&& {
            ||| change.id == param::id_of("gate.threshold_db"@)
            ||| change.id == param::id_of("gate.attack_ms"@)
            ||| change.id == param::id_of("gate.hold_ms"@)
            ||| change.id == param::id_of("gate.release_ms"@)
        }
    }

    /// Takes a parameter change that is this stage's, and ignores any other; gives what every
    /// detector, of every channel, is now to be set to, where that has changed.
    pub fn apply(&mut self, change: ParamChange) -> (detectors: Option<GateParams>)
        requires
            old(self).wf(),
        ensures
            final(self).wf(),
            *final(self) == old(self).changed_by(change),
            detectors == (if Self::concerns_detectors(change) {
                Some(final(self).params)
            } else {
                None
            }),
    {
        if change.id == ParamId::from_key("gate.enabled") {
            self.enabled = change.value.is_on();
            self.mix_target = Single::switch(self.enabled);
            None
        } else if change.id == ParamId::from_key("gate.threshold_db") {
            self.params.threshold_db = change.value;
            Some(self.params)
        } else if change.id == ParamId::from_key("gate.attack_ms") {
            self.params.attack_ms = change.value;
            Some(self.params)
        } else if change.id == ParamId::from_key("gate.hold_ms") {
            self.params.hold_ms = change.value;
            Some(self.params)
        } else if change.id == ParamId::from_key("gate.release_ms") {
            self.params.release_ms = change.value;
            Some(self.params)
        } else if change.id == ParamId::from_key("global.independent_channels") {
            self.independent = change.value.is_on();
            None
        } else {
            None
        }
    }

    /// Reports how far channel 0's detector turns the gain down.
    pub fn telemetry(&self, gain_reduction_db: Single, out: &mut Vec<TelemetryEntry>)
        ensures
            final(out)@ == old(out)@.push(
                TelemetryEntry {
                    id: param::id_of("telemetry.gate.gain_reduction_db"@).value,
                    value: gain_reduction_db,
                },
            ),
    {
        out.push(
            TelemetryEntry {
                id: ParamId::from_key("telemetry.gate.gain_reduction_db").value,
                value: gain_reduction_db,
            },
        );
    }

    /// Every channel's detector.
    pub open spec fn cleared_by_reset(&self) -> Seq<BlockOp> {
        dsp::of_every_channel(BlockOp::Gate { channel: 0 }, self.channels())
    }

    /// Which processors a reset clears: every channel's detector. What the controls are set to and
    /// where the bypass stands stay.
    pub fn reset(&self) -> (cleared: Vec<BlockOp>)
        ensures
            cleared@ == self.cleared_by_reset(),
    {
        let channels: usize = self.prepared_for.channel_config.output_channels();
        let mut cleared: Vec<BlockOp> = Vec::new();
        dsp::list_every_channel(BlockOp::Gate { channel: 0 }, channels, &mut cleared);
        cleared
    }

    pub fn latency_samples(&self) -> (n: u32)
        ensures
            n == 0,
    {
        0
    }

    pub fn tail_samples(&self) -> (n: u32)
        ensures
            n == 0,
    {
        0
    }
}

/// Every detector that is to run does so exactly once, in order, and nothing else runs: where
/// channels are independent each on its own channel, and where they are linked all there are, on
/// channel 0's samples.
pub proof fn lemma_every_detector_runs_once<A>(
    stage: &GateStage,
    runs: Seq<Run>,
    arith: A,
    dry: Seq<Seq<Single>>,
    out: Seq<Seq<Single>>,
    end: Single,
    c: int,
) where A: Fn(SampleOp) -> Single
    requires
        stage.processed(runs, arith, dry, out, end),
        0 <= c < runs.len(),
    ensures
        ({
            let each = stage.independent && dry.len() > 1;
            &&& runs.len() == (if each {
                dry.len()
            } else {
                stage.prepared_for.channel_config.outputs()
            })
            &&& runs[c] matches Run::Block { op, input, output }
            &&& op == (BlockOp::Gate { channel: c as usize })
            &&& input == dry[if each {
                c
            } else {
                0
            }]
        }),
{
    let (gated, wet) = choose|gated: Seq<Seq<Single>>, wet: Seq<Seq<Single>>| #[trigger]
        stage.processed_via(runs, arith, dry, out, end, gated, wet);
    assert(stage.processed_via(runs, arith, dry, out, end, gated, wet));
}

/// While the bypass has arrived, a stage that is off gives exactly what came in, and one that is on
/// what its detectors made: each channel's own where channels are independent, and channel 0's on
/// every channel where they are linked. The bypass stays where it is.
pub proof fn lemma_what_is_heard_of_the_detectors<A>(
    stage: &GateStage,
    runs: Seq<Run>,
    arith: A,
    dry: Seq<Seq<Single>>,
    out: Seq<Seq<Single>>,
    end: Single,
    ch: int,
) where A: Fn(SampleOp) -> Single
    requires
        stage.wf(),
        stage.processed(runs, arith, dry, out, end),
        bypass::settles(arith),
        stage.mix == stage.mix_target,
        0 <= ch < dry.len() <= stage.channels(),
        forall|c: int| 0 <= c < dry.len() ==> (#[trigger] dry[c]).len() == dry[0].len(),
        forall|i: int|
            0 <= i < runs.len() ==> (#[trigger] runs[i])->Block_output.len()
                == runs[i]->Block_input.len(),
    ensures
        ({
            let each = stage.independent && dry.len() > 1;
            &&& !stage.enabled ==> out == dry && end == Single::zero()
            &&& stage.enabled ==> {
                &&& end == Single::one()
                &&& out.len() == dry.len()
                &&& out[ch] == runs[if each {
                    ch
                } else {
                    0
                }]->Block_output
            }
        }),
{
    let each = stage.independent && dry.len() > 1;
    let (gated, wet) = choose|gated: Seq<Seq<Single>>, wet: Seq<Seq<Single>>| #[trigger]
        stage.processed_via(runs, arith, dry, out, end, gated, wet);
    assert forall|c: int| 0 <= c < wet.len() implies (#[trigger] dry[c]).len() == wet[c].len() by {
        let at = if each {
            c
        } else {
            0
        };
        assert(wet[c] == gated[at]);
        assert(runs[at]->Block_output.len() == runs[at]->Block_input.len());
    }
    bypass::lemma_a_settled_bypass_gives_one_side(arith, stage.enabled, dry, wet, out, end);
    assert(wet[ch] == gated[if each {
        ch
    } else {
        0
    }]);
}

/// Every channel's bypass starts from where the stage's stands and heads for where the stage's
/// heads, and blends what came in on that channel with what is heard of the detectors.
pub proof fn lemma_the_gate_blends_from_where_it_stands<A>(
    stage: &GateStage,
    runs: Seq<Run>,
    arith: A,
    dry: Seq<Seq<Single>>,
    out: Seq<Seq<Single>>,
    end: Single,
    ch: int,
    heard: Seq<Single>,
) where A: Fn(SampleOp) -> Single
    requires
        stage.wf(),
        stage.processed(runs, arith, dry, out, end),
        0 <= ch < dry.len() <= stage.channels(),
        heard == runs[if stage.independent && dry.len() > 1 {
            ch
        } else {
            0
        }]->Block_output,
        heard.len() > 0,
    ensures
        exists|mix: Single|
            {
                &&& call_ensures(
                    arith,
                    (SampleOp::Glide { mix: stage.mix, target: Single::switch(stage.enabled) },),
                    mix,
                )
                &&& #[trigger] call_ensures(
                    arith,
                    (SampleOp::Blend { dry: dry[ch][0], wet: heard[0], mix },),
                    out[ch][0],
                )
            },
{
    let (gated, wet) = choose|gated: Seq<Seq<Single>>, wet: Seq<Seq<Single>>| #[trigger]
        stage.processed_via(runs, arith, dry, out, end, gated, wet);
    assert(wet[ch] == heard);
    bypass::lemma_the_mix_moves_before_the_sample(
        arith,
        stage.mix,
        stage.mix_target,
        dry,
        wet,
        out,
        end,
        ch,
    );
}

/// Every control of this stage moves its own figure to the value it is given and nothing else, and
/// exactly those of the detectors' figures are handed on to them. Any other parameter of the
/// registry leaves the stage alone.
pub proof fn lemma_a_change_moves_one_figure(stage: &GateStage, i: int, value: Single)
    requires
        0 <= i < registry::registry_entries().len(),
    ensures
        ({
            let key = registry::registry_entries()[i].key@;
            let change = ParamChange { id: registry::registry_entries()[i].id, value };
            let after = stage.changed_by(change);
            let p = after.params;
            let q = stage.params;
            &&& after.prepared_for == stage.prepared_for
            &&& after.mix == stage.mix
            &&& key == "gate.threshold_db"@ ==> p.threshold_db == value
            &&& key != "gate.threshold_db"@ ==> p.threshold_db == q.threshold_db
            &&& key == "gate.attack_ms"@ ==> p.attack_ms == value
            &&& key != "gate.attack_ms"@ ==> p.attack_ms == q.attack_ms
            &&& key == "gate.hold_ms"@ ==> p.hold_ms == value
            &&& key != "gate.hold_ms"@ ==> p.hold_ms == q.hold_ms
            &&& key == "gate.release_ms"@ ==> p.release_ms == value
            &&& key != "gate.release_ms"@ ==> p.release_ms == q.release_ms
            &&& key == "gate.enabled"@ ==> after.enabled == value.means_on() && after.mix_target
                == Single::switch(value.means_on())
            &&& key != "gate.enabled"@ ==> after.enabled == stage.enabled && after.mix_target
                == stage.mix_target
            &&& key == "global.independent_channels"@ ==> after.independent == value.means_on()
            &&& key != "global.independent_channels"@ ==> after.independent == stage.independent
            &&& GateStage::concerns_detectors(change) <==> (key == "gate.threshold_db"@ || key
                == "gate.attack_ms"@ || key == "gate.hold_ms"@ || key == "gate.release_ms"@)
        }),
{
    identity::lemma_identities_are_told_apart();
    lemma_the_gates_entries();
    let entries = registry::registry_entries();
    assert(entries[i].id == param::id_of(entries[i].key@));
}

proof fn lemma_the_gates_entries()
    ensures
        registry::registry_entries()[2] == registry::gate_enabled(),
        registry::registry_entries()[2].key@ == "gate.enabled"@,
        registry::registry_entries()[3] == registry::gate_threshold_db(),
        registry::registry_entries()[3].key@ == "gate.threshold_db"@,
        registry::registry_entries()[4] == registry::gate_attack_ms(),
        registry::registry_entries()[4].key@ == "gate.attack_ms"@,
        registry::registry_entries()[5] == registry::gate_hold_ms(),
        registry::registry_entries()[5].key@ == "gate.hold_ms"@,
        registry::registry_entries()[6] == registry::gate_release_ms(),
        registry::registry_entries()[6].key@ == "gate.release_ms"@,
        registry::registry_entries()[31] == registry::global_independent_channels(),
        registry::registry_entries()[31].key@ == "global.independent_channels"@,
{
    reveal(registry::registry_entries);
}

/// A fresh stage is as if every parameter had just been set to its default: setting any of them to
/// it changes nothing.
pub proof fn lemma_a_fresh_gate_is_at_its_defaults(stage: &GateStage, i: int)
    requires
        stage.wf(),
        stage.fresh(),
        0 <= i < registry::registry_entries().len(),
    ensures
        stage.changed_by(
            ParamChange {
                id: registry::registry_entries()[i].id,
                value: registry::registry_entries()[i].kind.default_spec(),
            },
        ) == *stage,
        stage.mix == stage.mix_target,
{
    identity::lemma_identities_are_told_apart();
    lemma_the_gates_entries();
    let entries = registry::registry_entries();
    let value = entries[i].kind.default_spec();
    lemma_a_change_moves_one_figure(stage, i, value);
}

/// A reset clears every channel's detector and nothing else.
pub proof fn lemma_a_reset_clears_every_detector(stage: &GateStage, op: BlockOp)
    ensures
        stage.cleared_by_reset().contains(op) <==> (op matches BlockOp::Gate { channel } && channel
            < stage.prepared_for.channel_config.outputs()),
{
    let cleared = stage.cleared_by_reset();
    if let BlockOp::Gate { channel } = op {
        if channel < stage.channels() {
            assert(cleared[channel as int] == op);
        }
    }
}

} // verus!
