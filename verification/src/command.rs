//! What travels on the inbound command ring, and the way out for a resource that has been replaced.

use vstd::prelude::*;

use crate::ir::{IrInfo, IrSlot};
use crate::nam;
use crate::nam::{ModelInfo, NamSlot};
use crate::param::ParamChange;
use crate::prepare::PrepareContext;
use crate::resample;
use crate::resource::{Resource, ResourceKind};
use crate::ring;
use crate::ring::RingProducer;

verus! {

/// What a [`Command`] will do, readable without taking it off the ring.
#[derive(Debug, Clone, Copy, PartialEq, Eq, Structural)]
pub enum CommandKind {
    Param,
    LoadNam,
    LoadIr,
    UnloadNam,
    UnloadIr,
    Reset,
}

/// One record on the inbound command ring.
pub enum Command {
    /// A parameter update.
    Param(ParamChange),
    /// A prepared resource, to be installed with a crossfade.
    Load(Resource),
    /// A stage to be emptied, with a crossfade to its dry signal.
    Unload(ResourceKind),
    /// Clear every stage's internal state.
    Reset,
}

impl Command {
    pub open spec fn kind_spec(self) -> CommandKind {
        match self {
            Command::Param(_) => CommandKind::Param,
            Command::Load(Resource::Nam(..)) => CommandKind::LoadNam,
            Command::Load(Resource::Ir(..)) => CommandKind::LoadIr,
            Command::Unload(ResourceKind::Nam) => CommandKind::UnloadNam,
            Command::Unload(ResourceKind::Ir) => CommandKind::UnloadIr,
            Command::Reset => CommandKind::Reset,
        }
    }

    /// A whole fresh instance of a model, made for a chain of these figures.
    pub open spec fn carries_model(self, model: ModelInfo, ctx: PrepareContext) -> bool {
        self matches Command::Load(Resource::Nam(slot, built_for)) && {
            &&& built_for == ctx
            &&& slot.made_for(model, ctx.sample_rate, ctx.max_block_size, ctx.channels())
            &&& slot.latency() == (if model.sample_rate == ctx.sample_rate {
                0
            } else {
                resample::round_trip_latency(
                    ctx.sample_rate.hz as int,
                    model.sample_rate.hz as int,
                )
            })
        }
    }

    /// A whole instance of an impulse response, made for a chain of these figures.
    pub open spec fn carries_ir(self, ir: IrInfo, ctx: PrepareContext) -> bool {
        self matches Command::Load(Resource::Ir(slot, built_for)) && built_for == ctx && slot.ir
            == ir && slot.wf(ctx.channels())
    }

    /// Builds a whole model slot for the chain that was prepared with `ctx`, off the audio thread.
    pub fn load_nam(model: ModelInfo, ctx: &PrepareContext) -> (c: Command)
        requires
            ctx.wf(),
            model.sample_rate.wf(),
            nam::rates_fit(ctx.sample_rate.hz as int, model.sample_rate.hz as int),
        ensures
            c.carries_model(model, *ctx),
    {
        let channel_count: usize = ctx.channel_config.output_channels();
        let slot = NamSlot::new(model, ctx.sample_rate, ctx.max_block_size, channel_count);
        Command::Load(Resource::nam(Box::new(slot), *ctx))
    }

    /// Builds a whole impulse response slot for the chain that was prepared with `ctx`, off the
    /// audio thread.
    pub fn load_ir(ir: IrInfo, ctx: &PrepareContext) -> (c: Command)
        requires
            ir.wf(),
        ensures
            c.carries_ir(ir, *ctx),
    {
        let channel_count: usize = ctx.channel_config.output_channels();
        Command::Load(Resource::ir(Box::new(IrSlot::new(ir, channel_count)), *ctx))
    }

    pub fn kind(&self) -> (k: CommandKind)
        ensures
            k == self.kind_spec(),
    {
        match self {
            Command::Param(_) => CommandKind::Param,
            Command::Load(r) => match r.kind() {
                ResourceKind::Nam => CommandKind::LoadNam,
                ResourceKind::Ir => CommandKind::LoadIr,
            },
            Command::Unload(kind) => match kind {
                ResourceKind::Nam => CommandKind::UnloadNam,
                ResourceKind::Ir => CommandKind::UnloadIr,
            },
            Command::Reset => CommandKind::Reset,
        }
    }
}

/// The audio thread's end of the return ring, for one pass over the stages.
///
/// All it offers is a push that hands the resource back when the ring is full, so a stage has no
/// way to lose a resource through it.
pub struct RetireSink<'a> {
    producer: &'a mut RingProducer<Resource>,
    rejected: usize,
}

impl<'a> RetireSink<'a> {
    pub closed spec fn rejections(&self) -> nat {
        self.rejected as nat
    }

    /// Every answer of the ring so far, in this pass and before: what it was offered, and whether
    /// it took it.
    pub closed spec fn answered(&self) -> Seq<(Resource, bool)> {
        self.producer.answered()
    }

    /// Every resource that has gone into the ring so far, in this pass and before.
    pub open spec fn sent(&self) -> Seq<Resource> {
        ring::resources_sent(self.answered())
    }

    /// A sink for one pass over this ring. What the ring has answered when the pass is over is left
    /// unsaid here; every push says what it adds.
    pub fn new(producer: &'a mut RingProducer<Resource>) -> (s: Self)
        ensures
            s.rejections() == 0,
            s.answered() == old(producer).answered(),
    {
        RetireSink { producer, rejected: 0 }
    }

    /// Counts the outcome of one push and passes it on.
    pub fn settle(&mut self, outcome: Result<(), Resource>) -> (r: Result<(), Resource>)
        requires
            old(self).rejections() < usize::MAX,
        ensures
            r == outcome,
            final(self).answered() == old(self).answered(),
            final(self).rejections() == old(self).rejections() + (if outcome is Err {
                1int
            } else {
                0
            }),
    {
        match outcome {
            Ok(done) => Ok(done),
            Err(back) => {
                self.rejected = self.rejected + 1;
                Err(back)
            },
        }
    }

    /// Hands `resource` to the worker, or gives it back and counts the rejection: the ring is
    /// offered it once, and its answer is the result.
    ///
    /// Whether the ring has room depends on the worker; a caller that gets the resource back keeps
    /// it and tries again on a later block.
    #[must_use]
    pub fn push(&mut self, resource: Resource) -> (r: Result<(), Resource>)
        requires
            old(self).rejections() < usize::MAX,
        ensures
            final(self).answered() == old(self).answered().push((resource, r is Ok)),
            match r {
                Ok(_) => final(self).sent() == old(self).sent().push(resource),
                Err(back) => back == resource && final(self).sent() == old(self).sent(),
            },
            final(self).rejections() == old(self).rejections() + (if r is Err {
                1int
            } else {
                0
            }),
    {
        let outcome = self.producer.try_push(resource);
        self.settle(outcome)
    }

    /// How many pushes of this pass were rejected.
    pub fn rejected(&self) -> (n: usize)
        ensures
            n == self.rejections(),
    {
        self.rejected
    }
}

/// The kind of a command says what it carries, and of a resource or a stage which of the two it is;
/// nothing else is told apart by it.
pub proof fn lemma_a_kind_says_what_is_carried(c: Command)
    ensures
        c.kind_spec() == CommandKind::Param <==> c is Param,
        c.kind_spec() == CommandKind::LoadNam <==> (c matches Command::Load(r) && r is Nam),
        c.kind_spec() == CommandKind::LoadIr <==> (c matches Command::Load(r) && r is Ir),
        c.kind_spec() == CommandKind::UnloadNam <==> c == Command::Unload(ResourceKind::Nam),
        c.kind_spec() == CommandKind::UnloadIr <==> c == Command::Unload(ResourceKind::Ir),
        c.kind_spec() == CommandKind::Reset <==> c is Reset,
        c matches Command::Load(r) ==> (r.kind_spec() == ResourceKind::Nam <==> r is Nam),
{
}

/// A load carries what was asked for, made for the chain it was asked for: the stage of that chain
/// takes it as its own. A model resamples exactly where its rate is not the chain's, and both have
/// a state for every channel of the chain.
pub proof fn lemma_a_load_fits_its_chain(
    c: Command,
    model: ModelInfo,
    ir: IrInfo,
    ctx: PrepareContext,
)
    requires
        ctx.wf(),
        model.sample_rate.wf(),
    ensures
        c.carries_model(model, ctx) ==> (c matches Command::Load(Resource::Nam(slot, built_for)) && {
            &&& built_for == ctx
            &&& slot.handle == model.handle
            &&& slot.resample@.len() == ctx.channel_config.outputs()
            &&& slot.resample@[0] is Some <==> model.sample_rate.hz != ctx.sample_rate.hz
            &&& slot.resample@[0] is None ==> slot.state_block == ctx.max_block_size
                && slot.latency() == 0
        }),
        c.carries_model(model, ctx) ==> c.kind_spec() == CommandKind::LoadNam,
        c.carries_ir(ir, ctx) ==> (c matches Command::Load(Resource::Ir(slot, built_for)) && {
            &&& built_for == ctx
            &&& slot.ir.handle == ir.handle
            &&& slot.ir.channel_count == ir.channel_count
            &&& slot.ir.len_samples == ir.len_samples
            &&& slot.states == ctx.channel_config.outputs()
        }),
        c.carries_ir(ir, ctx) ==> c.kind_spec() == CommandKind::LoadIr,
{
}

} // verus!
