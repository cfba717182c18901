//! The input trim stage: fold to mono, gain, DC blocker, meter.

use vstd::prelude::*;

use crate::descriptor::{continuous_default, stepped_default_on};
use crate::dsp;
use crate::dsp::{BlockOp, Convolve, Rack, Run, SampleOp};
use crate::identity;
use crate::meters;
use crate::meters::{Listener, Readings};
use crate::param;
use crate::param::{ParamChange, ParamId, TelemetryEntry};
use crate::prepare::PrepareContext;
use crate::registry;
use crate::single::Single;
use crate::stage_io::StageIo;

verus! {

/// What the meter of channel 0 reads.
#[derive(Debug, Clone, Copy, PartialEq, Eq, Structural)]
pub struct TrimReading {
    pub peak_db: Single,
    pub average_db: Single,
    pub peak_hold_db: Single,
    pub clipped: bool,
}

pub struct TrimStage {
    pub prepared_for: PrepareContext,
    /// What every channel's gain ramp heads for.
    pub gain_db: Single,
    pub dc_blocker_enabled: bool,
    pub independent: bool,
}

/// What is reported of channel 0's meter: its level, its average, the level it holds, and whether
/// it has clipped.
pub open spec fn reported(reading: TrimReading) -> Seq<TelemetryEntry> {
    seq![
        TelemetryEntry {
            id: param::id_of("telemetry.trim.peak_db"@).value,
            value: reading.peak_db,
        },
        TelemetryEntry {
            id: param::id_of("telemetry.trim.average_db"@).value,
            value: reading.average_db,
        },
        TelemetryEntry {
            id: param::id_of("telemetry.trim.peak_hold_db"@).value,
            value: reading.peak_hold_db,
        },
        TelemetryEntry {
            id: param::id_of("telemetry.trim.clipped"@).value,
            value: Single::switch(reading.clipped),
        },
    ]
}

/// Prepares the trim stage.
pub struct TrimPrep;

impl TrimPrep {
    /// A stage with every control at its default.
    pub fn prepare(&self, ctx: &PrepareContext) -> (stage: TrimStage)
        ensures
            stage.fresh(),
            stage.prepared_for == *ctx,
            stage.gain_db == registry::trim_gain_db().kind->default,
            stage.dc_blocker_enabled == (registry::trim_dc_blocker_enabled().kind->default_index
                == 1),
            !stage.independent,
    {
        TrimStage {
            prepared_for: *ctx,
            gain_db: continuous_default(registry::trim_gain_db()),
            dc_blocker_enabled: stepped_default_on(registry::trim_dc_blocker_enabled()),
            independent: false,
        }
    }
}

/// One channel through its gain ramp and, where it is on, its DC blocker; its meter hears what
/// comes of it, and what the meter gives is not looked at.
pub open spec fn channel_trimmed_via(
    ch: usize,
    dc_blocker: bool,
    input: Seq<Single>,
    out: Seq<Single>,
    runs: Seq<Run>,
    gained: Seq<Single>,
    metered: Seq<Single>,
) -> bool {
    let gain = Run::Block { op: BlockOp::TrimGain { channel: ch }, input, output: gained };
    let block = Run::Block { op: BlockOp::DcBlock { channel: ch }, input: gained, output: out };
    let meter = Run::Block {
        op: BlockOp::TrimMeter { channel: ch },
        input: out,
        output: metered,
    };
    if dc_blocker {
        runs == seq![gain, block, meter]
    } else {
        out == gained && runs == seq![gain, meter]
    }
}

pub open spec fn channel_trimmed(
    ch: usize,
    dc_blocker: bool,
    input: Seq<Single>,
    out: Seq<Single>,
    runs: Seq<Run>,
) -> bool {
    exists|gained: Seq<Single>, metered: Seq<Single>| #[trigger]
        channel_trimmed_via(ch, dc_blocker, input, out, runs, gained, metered)
}

/// Two channels folded to one, sample by sample.
pub open spec fn downmixed<A>(
    arith: A,
    left: Seq<Single>,
    right: Seq<Single>,
    mono: Seq<Single>,
) -> bool where A: Fn(SampleOp) -> Single {
    &&& mono.len() == left.len()
    &&& forall|i: int|
        0 <= i < mono.len() ==> call_ensures(
            arith,
            (SampleOp::Downmix { left: left[i], right: right[i] },),
            #[trigger] mono[i],
        )
}

/// Folds two channels to one.
pub fn downmix<A>(left: &Vec<Single>, right: &Vec<Single>, arith: A) -> (mono: Vec<Single>) where
    A: Fn(SampleOp) -> Single,

    requires
        left@.len() == right@.len(),
        dsp::computes(arith),
    ensures
        downmixed(arith, left@, right@, mono@),
{
    let mut mono: Vec<Single> = Vec::new();
    let mut i: usize = 0;
    while i < left.len()
        invariant
            i <= left@.len() == right@.len(),
            dsp::computes(arith),
            mono@.len() == i,
            forall|j: int|
                0 <= j < i ==> call_ensures(
                    arith,
                    (SampleOp::Downmix { left: left@[j], right: right@[j] },),
                    #[trigger] mono@[j],
                ),
        decreases left@.len() - i,
    {
        mono.push(arith(SampleOp::Downmix { left: left[i], right: right[i] }));
        i += 1;
    }
    mono
}

/// What linked channels are trimmed from: the first channel, with the second folded in where there
/// is one.
pub open spec fn mono_input<A>(arith: A, dry: Seq<Seq<Single>>, mono: Seq<Single>) -> bool where
    A: Fn(SampleOp) -> Single,
 {
    if dry.len() >= 2 {
        downmixed(arith, dry[0], dry[1], mono)
    } else {
        mono == dry[0]
    }
}

/// The gain ramps of the channels after the first, each once on the same samples.
pub open spec fn ramps_along(mono: Seq<Single>, ignored: Seq<Seq<Single>>) -> Seq<Run> {
    Seq::new(
        ignored.len(),
        |c: int|
            Run::Block {
                op: BlockOp::TrimGain { channel: (c + 1) as usize },
                input: mono,
                output: ignored[c],
            },
    )
}

/// Linked channels by way of the folded input: all of them carry what channel 0's chain makes of
/// it. Then every other channel's gain ramp runs over the same input, unheard, so that all of them
/// are equally far on their way when the channels become independent.
pub open spec fn linked_trimmed_via<A>(
    arith: A,
    channels: nat,
    dc_blocker: bool,
    dry: Seq<Seq<Single>>,
    out: Seq<Seq<Single>>,
    runs: Seq<Run>,
    mono: Seq<Single>,
    chain: Seq<Run>,
    ignored: Seq<Seq<Single>>,
) -> bool where A: Fn(SampleOp) -> Single {
    &&& mono_input(arith, dry, mono)
    &&& channel_trimmed(0, dc_blocker, mono, out[0], chain)
    &&& ignored.len() == channels - 1
    &&& runs == chain + ramps_along(mono, ignored)
    &&& out.len() == dry.len()
    &&& forall|c: int| 0 <= c < out.len() ==> #[trigger] out[c] == out[0]
}

pub open spec fn linked_trimmed<A>(
    arith: A,
    channels: nat,
    dc_blocker: bool,
    dry: Seq<Seq<Single>>,
    out: Seq<Seq<Single>>,
    runs: Seq<Run>,
) -> bool where A: Fn(SampleOp) -> Single {
    exists|mono: Seq<Single>, chain: Seq<Run>, ignored: Seq<Seq<Single>>| #[trigger]
        linked_trimmed_via(
            arith,
            channels,
            dc_blocker,
            dry,
            out,
            runs,
            mono,
            chain,
            ignored,
        )
}

/// Independent channels, one after the other: each through its own chain.
pub open spec fn each_trimmed(
    dc_blocker: bool,
    dry: Seq<Seq<Single>>,
    out: Seq<Seq<Single>>,
    parts: Seq<Seq<Run>>,
) -> bool {
    &&& out.len() == dry.len()
    &&& parts.len() == dry.len()
    &&& forall|c: int|
        0 <= c < out.len() ==> channel_trimmed(
            c as usize,
            dc_blocker,
            dry[c],
            #[trigger] out[c],
            parts[c],
        )
}

impl TrimStage {
    /// Every control at its default.
    pub open spec fn fresh(&self) -> bool {
        &&& self.gain_db == registry::trim_gain_db().kind.default_spec()
        &&& self.dc_blocker_enabled == registry::trim_dc_blocker_enabled().kind.default_spec().means_on()
        &&& self.independent == registry::global_independent_channels().kind.default_spec().means_on()
    }

    pub open spec fn channels(&self) -> nat {
        self.prepared_for.channels()
    }

    /// One block, and all that ran for it: independent channels each through their own chain,
    /// linked ones through channel 0's, with every other gain ramp running along.
    pub open spec fn processed<A>(
        &self,
        runs: Seq<Run>,
        arith: A,
        dry: Seq<Seq<Single>>,
        out: Seq<Seq<Single>>,
    ) -> bool where A: Fn(SampleOp) -> Single {
        if self.independent && dry.len() > 1 {
            exists|parts: Seq<Seq<Run>>| #[trigger]
                each_trimmed(self.dc_blocker_enabled, dry, out, parts) && runs == dsp::in_turn(
                    parts,
                )
        } else {
            linked_trimmed(
                arith,
                self.channels(),
                self.dc_blocker_enabled,
                dry,
                out,
                runs,
            )
        }
    }

    /// Runs one channel's chain on an input; the channel's meter hears the result.
    fn trim_channel<S, B, C>(
        &self,
        ch: usize,
        input: Vec<Single>,
        rack: &mut Rack<S, B, C>,
    ) -> (out: Vec<Single>) where
        B: Fn(BlockOp, Vec<Single>, S) -> (Vec<Single>, S),
        C: Fn(Convolve, Vec<Single>, S) -> (Vec<Single>, Vec<Single>, S),

        requires
            old(rack).wf(),
        ensures
            final(rack).went_on(old(rack)),
            out@.len() == input@.len(),
            channel_trimmed(
                ch,
                self.dc_blocker_enabled,
                input@,
                out@,
                final(rack).since(old(rack)),
            ),
    {
        let ghost given = input@;
        let gained: Vec<Single> = rack.run(BlockOp::TrimGain { channel: ch }, input);
        let ghost between = gained@;
        let ghost earlier = *rack;
        let out: Vec<Single> = if self.dc_blocker_enabled {
            rack.run(BlockOp::DcBlock { channel: ch }, gained)
        } else {
            proof {
                rack.lemma_nothing_yet();
            }
            gained
        };
        let ghost halfway = *rack;
        let heard: Vec<Single> = dsp::copy_samples(&out);
        let ignored: Vec<Single> = rack.run(BlockOp::TrimMeter { channel: ch }, heard);
        proof {
            Rack::lemma_went_on(old(rack), &earlier, &halfway);
            Rack::lemma_went_on(old(rack), &halfway, rack);
            let gain = Run::Block {
                op: BlockOp::TrimGain { channel: ch },
                input: given,
                output: between,
            };
            let meter = Run::Block {
                op: BlockOp::TrimMeter { channel: ch },
                input: out@,
                output: ignored@,
            };
            if self.dc_blocker_enabled {
                let block = Run::Block {
                    op: BlockOp::DcBlock { channel: ch },
                    input: between,
                    output: out@,
                };
                assert(rack.since(old(rack)) =~= seq![gain, block, meter]);
            } else {
                assert(rack.since(old(rack)) =~= seq![gain, meter]);
            }
            assert(channel_trimmed_via(
                ch,
                self.dc_blocker_enabled,
                given,
                out@,
                rack.since(old(rack)),
                between,
                ignored@,
            ));
        }
        out
    }

    /// Runs the gain ramps of the channels after the first on the same samples, unheard.
    fn run_ramps_along<S, B, C>(&self, mono: &Vec<Single>, rack: &mut Rack<S, B, C>) -> (ignored:
        Ghost<Seq<Seq<Single>>>) where
        B: Fn(BlockOp, Vec<Single>, S) -> (Vec<Single>, S),
        C: Fn(Convolve, Vec<Single>, S) -> (Vec<Single>, Vec<Single>, S),

        requires
            old(rack).wf(),
        ensures
            final(rack).went_on(old(rack)),
            ignored@.len() == self.channels() - 1,
            final(rack).since(old(rack)) == ramps_along(mono@, ignored@),
    {
        let channels: usize = self.prepared_for.channel_config.output_channels();
        let ghost mut ignored: Seq<Seq<Single>> = Seq::empty();
        let mut ch: usize = 1;
        proof {
            rack.lemma_nothing_yet();
            assert(ramps_along(mono@, ignored) =~= Seq::empty());
        }
        while ch < channels
            invariant
                1 <= ch <= channels == self.channels(),
                ignored.len() == ch - 1,
                rack.went_on(old(rack)),
                rack.since(old(rack)) == ramps_along(mono@, ignored),
            decreases channels - ch,
        {
            let copy: Vec<Single> = dsp::copy_samples(mono);
            let ghost earlier = *rack;
            let out: Vec<Single> = rack.run(BlockOp::TrimGain { channel: ch }, copy);
            proof {
                let grown = ignored.push(out@);
                Rack::lemma_went_on(old(rack), &earlier, rack);
                assert(ramps_along(mono@, grown) =~= ramps_along(mono@, ignored) + seq![
                    Run::Block {
                        op: BlockOp::TrimGain { channel: ch },
                        input: mono@,
                        output: out@,
                    },
                ]);
                ignored = grown;
            }
            ch += 1;
        }
        Ghost(ignored)
    }

    /// Runs one block in place.
    pub fn process<S, B, C, A>(&self, io: &mut StageIo, rack: &mut Rack<S, B, C>, arith: A) where
        B: Fn(BlockOp, Vec<Single>, S) -> (Vec<Single>, S),
        C: Fn(Convolve, Vec<Single>, S) -> (Vec<Single>, Vec<Single>, S),
        A: Fn(SampleOp) -> Single + Copy,

        requires
            old(io).wf(),
            0 < old(io).channels@.len() <= self.channels(),
            old(rack).wf(),
            dsp::computes(arith),
        ensures
            final(io).wf(),
            final(io).same_shape(old(io)),
            final(rack).went_on(old(rack)),
            self.processed(
                final(rack).since(old(rack)),
                arith,
                old(io).samples(),
                final(io).samples(),
            ),
    {
        let count: usize = io.channels.len();
        let ghost dries = io.samples();
        if self.independent && count > 1 {
            let ghost mut parts: Seq<Seq<Run>> = Seq::empty();
            let mut ch: usize = 0;
            proof {
                rack.lemma_nothing_yet();
            }
            while ch < count
                invariant
                    io.wf(),
                    io.same_shape(old(io)),
                    ch <= count == io.channels@.len(),
                    dries == old(io).samples(),
                    rack.went_on(old(rack)),
                    parts.len() == ch,
                    rack.since(old(rack)) == dsp::in_turn(parts),
                    forall|c: int|
                        ch <= c < count ==> (#[trigger] io.channels@[c])@ == dries[c],
                    forall|c: int|
                        0 <= c < ch ==> channel_trimmed(
                            c as usize,
                            self.dc_blocker_enabled,
                            dries[c],
                            (#[trigger] io.channels@[c])@,
                            parts[c],
                        ),
                decreases count - ch,
            {
                let input: Vec<Single> = dsp::copy_samples(&io.channels[ch]);
                let ghost earlier = *rack;
                let out: Vec<Single> = self.trim_channel(ch, input, rack);
                io.put(ch, out);
                proof {
                    let part = rack.since(&earlier);
                    Rack::lemma_went_on(old(rack), &earlier, rack);
                    dsp::lemma_in_turn_grows(parts, part);
                    parts = parts.push(part);
                }
                ch += 1;
            }
            proof {
                assert(each_trimmed(self.dc_blocker_enabled, dries, io.samples(), parts));
            }
            return;
        }
        let input: Vec<Single> = if count >= 2 {
            downmix(&io.channels[0], &io.channels[1], arith)
        } else {
            dsp::copy_samples(&io.channels[0])
        };
        let first: Vec<Single> = dsp::copy_samples(&input);
        let out: Vec<Single> = self.trim_channel(0, first, rack);
        let ghost earlier = *rack;
        let ignored = self.run_ramps_along(&input, rack);
        io.put(0, out);
        io.duplicate_first();
        proof {
            Rack::lemma_went_on(old(rack), &earlier, rack);
            assert(linked_trimmed_via(
                arith,
                self.channels(),
                self.dc_blocker_enabled,
                dries,
                io.samples(),
                rack.since(old(rack)),
                input@,
                earlier.since(old(rack)),
                ignored@,
            ));
        }
    }

    /// This stage after a parameter change: one that is not its own leaves it as it is.
    pub open spec fn changed_by(&self, change: ParamChange) -> TrimStage {
        if change.id == param::id_of("trim.gain_db"@) {
            TrimStage { gain_db: change.value, ..*self }
        } else if change.id == param::id_of("trim.dc_blocker_enabled"@) {
            TrimStage { dc_blocker_enabled: change.value.means_on(), ..*self }
        } else if change.id == param::id_of("global.independent_channels"@) {
            TrimStage { independent: change.value.means_on(), ..*self }
        } else {
            *self
        }
    }

    /// Takes a parameter change that is this stage's, and ignores any other; gives what every
    /// channel's gain ramp is now to head for, where that has changed.
    pub fn apply(&mut self, change: ParamChange) -> (gain_target_db: Option<Single>)
        ensures
            *final(self) == old(self).changed_by(change),
            gain_target_db == (if change.id == param::id_of("trim.gain_db"@) {
                Some(change.value)
            } else {
                None
            }),
    {
        if change.id == ParamId::from_key("trim.gain_db") {
            self.gain_db = change.value;
            Some(change.value)
        } else if change.id == ParamId::from_key("trim.dc_blocker_enabled") {
            self.dc_blocker_enabled = change.value.is_on();
            None
        } else if change.id == ParamId::from_key("global.independent_channels") {
            self.independent = change.value.is_on();
            None
        } else {
            None
        }
    }

    /// Reports what channel 0's meter reads.
    pub fn telemetry(&self, reading: TrimReading, out: &mut Vec<TelemetryEntry>)
        ensures
            final(out)@ == old(out)@ + reported(reading),
    {
        out.push(
            TelemetryEntry {
                id: ParamId::from_key("telemetry.trim.peak_db").value,
                value: reading.peak_db,
            },
        );
        out.push(
            TelemetryEntry {
                id: ParamId::from_key("telemetry.trim.average_db").value,
                value: reading.average_db,
            },
        );
        out.push(
            TelemetryEntry {
                id: ParamId::from_key("telemetry.trim.peak_hold_db").value,
                value: reading.peak_hold_db,
            },
        );
        out.push(
            TelemetryEntry {
                id: ParamId::from_key("telemetry.trim.clipped").value,
                value: Single::switch(reading.clipped),
            },
        );
    }

    /// Every channel's DC blocker, and then every channel's meter.
    pub open spec fn cleared_by_reset(&self) -> Seq<BlockOp> {
        dsp::of_every_channel(BlockOp::DcBlock { channel: 0 }, self.channels())
            + dsp::of_every_channel(BlockOp::TrimMeter { channel: 0 }, self.channels())
    }

    /// Which processors a reset clears: every channel's DC blocker and meter. The gain ramps keep
    /// where they are.
    pub fn reset(&self) -> (cleared: Vec<BlockOp>)
        ensures
            cleared@ == self.cleared_by_reset(),
    {
        let channels: usize = self.prepared_for.channel_config.output_channels();
        let mut cleared: Vec<BlockOp> = Vec::new();
        dsp::list_every_channel(BlockOp::DcBlock { channel: 0 }, channels, &mut cleared);
        dsp::list_every_channel(BlockOp::TrimMeter { channel: 0 }, channels, &mut cleared);
        cleared
    }

    pub fn latency_samples(&self) -> (n: u32)
        ensures
            n == 0,
    {
        0
    }

    pub fn tail_samples(&self) -> (n: u32)
        ensures
            n == 0,
    {
        0
    }
}

/// One channel's chain: its gain ramp on what came in, its DC blocker on what the ramp made where
/// it is on, and its meter, once, on what then leaves the stage; nothing else runs.
pub proof fn lemma_a_channel_goes_through_its_own_chain(
    ch: usize,
    dc_blocker: bool,
    input: Seq<Single>,
    out: Seq<Single>,
    runs: Seq<Run>,
)
    requires
        channel_trimmed(ch, dc_blocker, input, out, runs),
    ensures
        runs.len() == (if dc_blocker {
            3nat
        } else {
            2
        }),
        runs[0] matches Run::Block { op, input: heard, .. } && op == (BlockOp::TrimGain {
            channel: ch,
        }) && heard == input,
        dc_blocker ==> runs[1] == (Run::Block {
            op: BlockOp::DcBlock { channel: ch },
            input: runs[0]->Block_output,
            output: out,
        }),
        !dc_blocker ==> out == runs[0]->Block_output,
        runs.last() matches Run::Block { op, input: heard, .. } && op == (BlockOp::TrimMeter {
            channel: ch,
        }) && heard == out,
{
}

/// Linked channels all carry what channel 0's chain makes of one signal: the one channel that came
/// in, or the two folded, left with right, sample for sample. Then every other channel's ramp runs
/// over that same signal, once and in order, and nothing else does.
pub proof fn lemma_linked_channels_carry_one_signal<A>(
    stage: &TrimStage,
    runs: Seq<Run>,
    arith: A,
    dry: Seq<Seq<Single>>,
    out: Seq<Seq<Single>>,
    c: int,
) where A: Fn(SampleOp) -> Single
    requires
        stage.processed(runs, arith, dry, out),
        !stage.independent || dry.len() == 1,
        dry.len() >= 1,
    ensures
        ({
            let k = if stage.dc_blocker_enabled {
                3int
            } else {
                2
            };
            let mono = runs[0]->Block_input;
            &&& runs.len() == k + stage.prepared_for.channel_config.outputs() - 1
            &&& channel_trimmed(0, stage.dc_blocker_enabled, mono, out[0], runs.take(k))
            &&& out.len() == dry.len()
            &&& 0 <= c < out.len() ==> out[c] == out[0]
            &&& dry.len() == 1 ==> mono == dry[0]
            &&& dry.len() > 1 ==> mono.len() == dry[0].len()
            &&& dry.len() > 1 && 0 <= c < mono.len() ==> call_ensures(
                arith,
                (SampleOp::Downmix { left: dry[0][c], right: dry[1][c] },),
                mono[c],
            )
            &&& k <= c < runs.len() ==> (runs[c] matches Run::Block { op, input, .. } && op == (
            BlockOp::TrimGain { channel: (c - k + 1) as usize }) && input == mono)
        }),
{
    let k = if stage.dc_blocker_enabled {
        3int
    } else {
        2
    };
    let (mono, chain, ignored) = choose|
        mono: Seq<Single>,
        chain: Seq<Run>,
        ignored: Seq<Seq<Single>>,
    | #[trigger]
        linked_trimmed_via(
            arith,
            stage.channels(),
            stage.dc_blocker_enabled,
            dry,
            out,
            runs,
            mono,
            chain,
            ignored,
        );
    lemma_a_channel_goes_through_its_own_chain(
        0,
        stage.dc_blocker_enabled,
        mono,
        out[0],
        chain,
    );
    assert(runs.take(k) =~= chain);
    assert(runs[0] == chain[0]);
    if k <= c < runs.len() {
        assert(runs[c] == ramps_along(mono, ignored)[c - k]);
    }
}

/// Two independent channels go through their own chains, the first channel's first, each on its own
/// samples; nothing else runs.
pub proof fn lemma_independent_channels_are_trimmed_apart<A>(
    stage: &TrimStage,
    runs: Seq<Run>,
    arith: A,
    dry: Seq<Seq<Single>>,
    out: Seq<Seq<Single>>,
) where A: Fn(SampleOp) -> Single
    requires
        stage.processed(runs, arith, dry, out),
        stage.independent,
        dry.len() == 2,
    ensures
        ({
            let k = if stage.dc_blocker_enabled {
                3int
            } else {
                2
            };
            &&& out.len() == 2
            &&& runs.len() == 2 * k
            &&& channel_trimmed(0, stage.dc_blocker_enabled, dry[0], out[0], runs.take(k))
            &&& channel_trimmed(1, stage.dc_blocker_enabled, dry[1], out[1], runs.skip(k))
        }),
{
    let parts = choose|parts: Seq<Seq<Run>>| #[trigger]
        each_trimmed(stage.dc_blocker_enabled, dry, out, parts) && runs == dsp::in_turn(parts);
    let k = if stage.dc_blocker_enabled {
        3int
    } else {
        2
    };
    assert(channel_trimmed(0, stage.dc_blocker_enabled, dry[0], out[0], parts[0]));
    assert(channel_trimmed(1, stage.dc_blocker_enabled, dry[1], out[1], parts[1]));
    lemma_a_channel_goes_through_its_own_chain(
        0,
        stage.dc_blocker_enabled,
        dry[0],
        out[0],
        parts[0],
    );
    lemma_a_channel_goes_through_its_own_chain(
        1,
        stage.dc_blocker_enabled,
        dry[1],
        out[1],
        parts[1],
    );
    reveal_with_fuel(dsp::in_turn, 3);
    assert(parts.drop_last().last() == parts[0]);
    assert(runs =~= parts[0] + parts[1]);
    assert(runs.take(k) =~= parts[0]);
    assert(runs.skip(k) =~= parts[1]);
}

/// Every control of this stage moves its own figure to the value it is given and nothing else; any
/// other parameter of the registry leaves the stage alone.
pub proof fn lemma_a_change_moves_one_figure(stage: &TrimStage, i: int, value: Single)
    requires
        0 <= i < registry::registry_entries().len(),
    ensures
        ({
            let key = registry::registry_entries()[i].key@;
            let after = stage.changed_by(
                ParamChange { id: registry::registry_entries()[i].id, value },
            );
            &&& after.prepared_for == stage.prepared_for
            &&& key == "trim.gain_db"@ ==> after.gain_db == value
            &&& key != "trim.gain_db"@ ==> after.gain_db == stage.gain_db
            &&& key == "trim.dc_blocker_enabled"@ ==> after.dc_blocker_enabled == value.means_on()
            &&& key != "trim.dc_blocker_enabled"@ ==> after.dc_blocker_enabled
                == stage.dc_blocker_enabled
            &&& key == "global.independent_channels"@ ==> after.independent == value.means_on()
            &&& key != "global.independent_channels"@ ==> after.independent == stage.independent
        }),
{
    identity::lemma_identities_are_told_apart();
    lemma_the_trims_entries();
    let entries = registry::registry_entries();
    assert(entries[i].id == param::id_of(entries[i].key@));
}

proof fn lemma_the_trims_entries()
    ensures
        registry::registry_entries()[0] == registry::trim_gain_db(),
        registry::registry_entries()[0].key@ == "trim.gain_db"@,
        registry::registry_entries()[1] == registry::trim_dc_blocker_enabled(),
        registry::registry_entries()[1].key@ == "trim.dc_blocker_enabled"@,
        registry::registry_entries()[31] == registry::global_independent_channels(),
        registry::registry_entries()[31].key@ == "global.independent_channels"@,
{
    reveal(registry::registry_entries);
}

/// A fresh stage is as if every parameter had just been set to its default: setting any of them to
/// it changes nothing.
pub proof fn lemma_a_fresh_trim_is_at_its_defaults(stage: &TrimStage, i: int)
    requires
        stage.fresh(),
        0 <= i < registry::registry_entries().len(),
    ensures
        stage.changed_by(
            ParamChange {
                id: registry::registry_entries()[i].id,
                value: registry::registry_entries()[i].kind.default_spec(),
            },
        ) == *stage,
{
    identity::lemma_identities_are_told_apart();
    lemma_the_trims_entries();
    let entries = registry::registry_entries();
    lemma_a_change_moves_one_figure(stage, i, entries[i].kind.default_spec());
}

/// The level that the trim's meter reads is what the application and the plugin show as the
/// input's, and its average what the application shows as the input's average; neither is taken
/// for anything of the output.
pub proof fn lemma_the_trims_meter_is_the_input_meter(reading: TrimReading)
    ensures
        Readings::of(Listener::Application, reported(reading).take(2)) == (Readings {
            input_peak: Some(reading.peak_db),
            input_average: Some(reading.average_db),
            output_peak: None,
            output_average: None,
        }),
        Readings::of(Listener::Plugin, reported(reading).take(2)).input_peak == Some(
            reading.peak_db,
        ),
        Readings::of(Listener::Plugin, reported(reading).take(2)).output_peak is None,
        reported(reading)[2].value == reading.peak_hold_db,
        reported(reading)[2].id == param::id_of("telemetry.trim.peak_hold_db"@).value,
        reported(reading)[3].value.means_on() == reading.clipped,
        reported(reading)[3].id == param::id_of("telemetry.trim.clipped"@).value,
        reported(reading).len() == 4,
{
    meters::lemma_readings_are_told_apart();
    let two = reported(reading).take(2);
    assert(two.drop_last().drop_last() =~= Seq::empty());
    assert(two.drop_last().last() == reported(reading)[0]);
    assert(two.last() == reported(reading)[1]);
    reveal_with_fuel(meters::newest, 3);
    reveal_with_fuel(meters::loudest, 3);
    assert(meters::output_peak_id(0) != two.last().id && meters::output_peak_id(1)
        != two.last().id && meters::output_average_id(0) != two.last().id
        && meters::output_average_id(1) != two.last().id);
}

/// A reset clears every channel's DC blocker and meter and nothing else; the gain ramps stay where
/// they are.
pub proof fn lemma_a_reset_clears_blockers_and_meters(stage: &TrimStage, op: BlockOp)
    ensures
        stage.cleared_by_reset().contains(op) <==> ((op matches BlockOp::DcBlock { channel }
            && channel < stage.prepared_for.channel_config.outputs()) || (
        op matches BlockOp::TrimMeter { channel } && channel
            < stage.prepared_for.channel_config.outputs())),
{
    let cleared = stage.cleared_by_reset();
    let n = stage.channels() as int;
    if let BlockOp::DcBlock { channel } = op {
        if channel < n {
            assert(cleared[channel as int] == op);
        }
    }
    if let BlockOp::TrimMeter { channel } = op {
        if channel < n {
            assert(cleared[n + channel] == op);
        }
    }
}

} // verus!
