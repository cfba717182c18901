//! The signal operations that the shell supplies.
//!
//! A stage decides which operation runs on which samples, in what order, and where its result
//! goes; what the operation does to a sample is floating-point arithmetic and comes in as a
//! function. A [`SampleOp`] maps numbers to a number. A [`BlockOp`] runs a processor that keeps a
//! state over a block and hands back a block of the same length, and a [`Convolve`] runs an impulse
//! response. Those two go through a [`Rack`], which hands the state from each run to the next and
//! keeps a record of the runs: what a stage says of a block is exactly which runs it added.

use vstd::prelude::*;

use crate::single::Single;

verus! {

/// Arithmetic on single samples.
#[derive(Debug, Clone, Copy, PartialEq, Eq, Structural)]
pub enum SampleOp {
    /// `outgoing * cos(t) + incoming * sin(t)` with `t` the fraction `progress / total` of a right
    /// angle: one sample of an equal-power crossfade.
    Fade { outgoing: Single, incoming: Single, progress: u32, total: u32 },
    /// One step of the bypass blend's one-pole approach of `mix` to `target`.
    Glide { mix: Single, target: Single },
    /// `dry * (1 - mix) + wet * mix`.
    Blend { dry: Single, wet: Single, mix: Single },
    /// One sample of a stereo pair folded to mono.
    Downmix { left: Single, right: Single },
    /// `a + b`.
    Sum { a: Single, b: Single },
}

/// A stateful processor of the shell, named by what it belongs to.
#[derive(Debug, Clone, Copy, PartialEq, Eq, Structural)]
pub enum BlockOp {
    /// A loaded model at the engine's own rate, with the state of one channel.
    Model { handle: u64, channel: usize },
    /// A loaded model at its own rate: one internal block to the model's rate, through the model,
    /// and back.
    ResampledModel { handle: u64, channel: usize },
    /// A loaded model's loudness ramp, heading for a target.
    NormalizeGain { handle: u64, channel: usize, target_db: Single },
    /// The noise gate's detector and gain of one channel.
    Gate { channel: usize },
    /// The input trim's gain ramp of one channel.
    TrimGain { channel: usize },
    /// The input trim's DC blocker of one channel.
    DcBlock { channel: usize },
    /// The input trim's meter of one channel, which only listens.
    TrimMeter { channel: usize },
    /// The low-cut filter of one channel.
    LowCut { channel: usize },
    /// The high-cut filter of one channel.
    HighCut { channel: usize },
    /// The level ramp of one channel.
    Level { channel: usize },
}

impl BlockOp {
    /// The same kind of processor of another channel.
    #[verifier::allow_in_spec]
    pub fn of_channel(self, channel: usize) -> BlockOp
        returns
            (match self {
                BlockOp::Model { handle, .. } => BlockOp::Model { handle, channel },
                BlockOp::ResampledModel { handle, .. } => BlockOp::ResampledModel {
                    handle,
                    channel,
                },
                BlockOp::NormalizeGain { handle, target_db, .. } => BlockOp::NormalizeGain {
                    handle,
                    channel,
                    target_db,
                },
                BlockOp::Gate { .. } => BlockOp::Gate { channel },
                BlockOp::TrimGain { .. } => BlockOp::TrimGain { channel },
                BlockOp::DcBlock { .. } => BlockOp::DcBlock { channel },
                BlockOp::TrimMeter { .. } => BlockOp::TrimMeter { channel },
                BlockOp::LowCut { .. } => BlockOp::LowCut { channel },
                BlockOp::HighCut { .. } => BlockOp::HighCut { channel },
                BlockOp::Level { .. } => BlockOp::Level { channel },
            }),
    {
        match self {
            BlockOp::Model { handle, .. } => BlockOp::Model { handle, channel },
            BlockOp::ResampledModel { handle, .. } => BlockOp::ResampledModel {
                handle,
                channel,
            },
            BlockOp::NormalizeGain { handle, target_db, .. } => BlockOp::NormalizeGain {
                handle,
                channel,
                target_db,
            },
            BlockOp::Gate { .. } => BlockOp::Gate { channel },
            BlockOp::TrimGain { .. } => BlockOp::TrimGain { channel },
            BlockOp::DcBlock { .. } => BlockOp::DcBlock { channel },
            BlockOp::TrimMeter { .. } => BlockOp::TrimMeter { channel },
            BlockOp::LowCut { .. } => BlockOp::LowCut { channel },
            BlockOp::HighCut { .. } => BlockOp::HighCut { channel },
            BlockOp::Level { .. } => BlockOp::Level { channel },
        }
    }
}

/// The same kind of processor of each of so many channels.
pub open spec fn of_every_channel(op: BlockOp, channels: nat) -> Seq<BlockOp> {
    Seq::new(channels, |c: int| op.of_channel(c as usize))
}

/// Adds the same kind of processor of every channel to a list.
pub fn list_every_channel(op: BlockOp, channels: usize, list: &mut Vec<BlockOp>)
    ensures
        final(list)@ == old(list)@ + of_every_channel(op, channels as nat),
{
    let ghost before = list@;
    let mut c: usize = 0;
    proof {
        assert(before + of_every_channel(op, 0) =~= before);
    }
    while c < channels
        invariant
            c <= channels,
            list@ == before + of_every_channel(op, c as nat),
        decreases channels - c,
    {
        list.push(op.of_channel(c));
        c += 1;
        proof {
            assert(list@ =~= before + of_every_channel(op, c as nat));
        }
    }
}

/// The convolution of a loaded impulse response, with the state of one channel.
#[derive(Debug, Clone, Copy, PartialEq, Eq, Structural)]
pub struct Convolve {
    pub handle: u64,
    pub channel: usize,
}

/// Every sample operation can be asked for.
pub open spec fn computes<A>(arith: A) -> bool where A: Fn(SampleOp) -> Single {
    forall|op: SampleOp| #[trigger] call_requires(arith, (op,))
}

/// One run of a processor: which it was, what it was handed and what it gave.
pub enum Run {
    Block { op: BlockOp, input: Seq<Single>, output: Seq<Single> },
    Convolved { by: Convolve, input: Seq<Single>, first: Seq<Single>, second: Seq<Single> },
}

impl Run {
    /// What the run gave first: all there is of it, but for a convolution's second output.
    pub open spec fn made(self) -> Seq<Single> {
        match self {
            Run::Block { output, .. } => output,
            Run::Convolved { first, .. } => first,
        }
    }

    /// Both ran the same processor on the same samples, whatever it gave.
    pub open spec fn same_question(self, other: Run) -> bool {
        match (self, other) {
            (Run::Block { op: a, input: x, .. }, Run::Block { op: b, input: y, .. }) => a == b && x
                == y,
            (
                Run::Convolved { by: a, input: x, .. },
                Run::Convolved { by: b, input: y, .. },
            ) => a == b && x == y,
            _ => false,
        }
    }
}

/// A run took the processors from one state to another.
pub open spec fn led<S, B, C>(block: B, conv: C, before: S, run: Run, after: S) -> bool where
    B: Fn(BlockOp, Vec<Single>, S) -> (Vec<Single>, S),
    C: Fn(Convolve, Vec<Single>, S) -> (Vec<Single>, Vec<Single>, S),
 {
    match run {
        Run::Block { op, input, output } => exists|v: Vec<Single>, r: (Vec<Single>, S)| #[trigger]
            call_ensures(block, (op, v, before), r) && v@ == input && r.0@ == output && r.1
                == after,
        Run::Convolved { by: op, input, first, second } => exists|
            v: Vec<Single>,
            r: (Vec<Single>, Vec<Single>, S),
        | #[trigger]
            call_ensures(conv, (op, v, before), r) && v@ == input && r.0@ == first && r.1@
                == second && r.2 == after,
    }
}

/// Runs one after the other, each from the state the one before it left behind.
pub open spec fn led_in_turn<S, B, C>(block: B, conv: C, states: Seq<S>, runs: Seq<Run>) -> bool where
    B: Fn(BlockOp, Vec<Single>, S) -> (Vec<Single>, S),
    C: Fn(Convolve, Vec<Single>, S) -> (Vec<Single>, Vec<Single>, S),
 {
    &&& states.len() == runs.len() + 1
    &&& forall|i: int|
        0 <= i < runs.len() ==> led(block, conv, states[i], #[trigger] runs[i], states[i + 1])
}

/// Every block operation can be asked for, on any block and in any state, and keeps the block's
/// length; and so can every convolution, on both of its outputs. An impulse response of one
/// channel only has its first output looked at.
pub open spec fn answers<S, B, C>(block: B, conv: C) -> bool where
    B: Fn(BlockOp, Vec<Single>, S) -> (Vec<Single>, S),
    C: Fn(Convolve, Vec<Single>, S) -> (Vec<Single>, Vec<Single>, S),
 {
    &&& forall|op: BlockOp, v: Vec<Single>, s: S| #[trigger] call_requires(block, (op, v, s))
    &&& forall|op: BlockOp, v: Vec<Single>, s: S, r: (Vec<Single>, S)| #[trigger]
        call_ensures(block, (op, v, s), r) ==> r.0@.len() == v@.len()
    &&& forall|op: Convolve, v: Vec<Single>, s: S| #[trigger] call_requires(conv, (op, v, s))
    &&& forall|op: Convolve, v: Vec<Single>, s: S, r: (Vec<Single>, Vec<Single>, S)| #[trigger]
        call_ensures(conv, (op, v, s), r) ==> r.0@.len() == v@.len() && r.1@.len() == v@.len()
}

/// What the processors give, and the state they leave behind, depends on nothing but what they
/// are handed and the state they are in.
pub open spec fn repeatable<S, B, C>(block: B, conv: C) -> bool where
    B: Fn(BlockOp, Vec<Single>, S) -> (Vec<Single>, S),
    C: Fn(Convolve, Vec<Single>, S) -> (Vec<Single>, Vec<Single>, S),
 {
    forall|before: S, one: Run, after_one: S, other: Run, after_other: S|
        #![trigger
            led(block, conv, before, one, after_one),
            led(block, conv, before, other, after_other)
        ]
        led(block, conv, before, one, after_one) && led(block, conv, before, other, after_other)
            && one.same_question(other) ==> one == other && after_one == after_other
}

/// The shell's processors with the state they are in, and a record of every run.
///
/// The state is handed from each run to the next, so that no processor can be run, or left out,
/// without the record showing it.
pub struct Rack<S, B, C> {
    state: Option<S>,
    block: B,
    conv: C,
    runs: Ghost<Seq<Run>>,
    states: Ghost<Seq<S>>,
}

impl<S, B, C> Rack<S, B, C> where
    B: Fn(BlockOp, Vec<Single>, S) -> (Vec<Single>, S),
    C: Fn(Convolve, Vec<Single>, S) -> (Vec<Single>, Vec<Single>, S),
 {
    /// What block operations are carried out by.
    pub closed spec fn block_by(&self) -> B {
        self.block
    }

    /// What convolutions are carried out by.
    pub closed spec fn conv_by(&self) -> C {
        self.conv
    }

    /// Every run so far.
    pub closed spec fn ran(&self) -> Seq<Run> {
        self.runs@
    }

    /// The state before every run, and the one after the last.
    pub closed spec fn states(&self) -> Seq<S> {
        self.states@
    }

    /// The state that is kept is the last one of the record.
    pub closed spec fn state_is_kept(&self) -> bool {
        self.state == Some(self.states@.last())
    }

    /// The record is what the processors did.
    pub open spec fn wf(&self) -> bool {
        &&& self.state_is_kept()
        &&& answers::<S, B, C>(self.block_by(), self.conv_by())
        &&& led_in_turn(self.block_by(), self.conv_by(), self.states(), self.ran())
    }

    /// The state the processors are in.
    pub open spec fn state_now(&self) -> S {
        self.states().last()
    }

    /// The same processors, further on: the record has only grown.
    pub open spec fn went_on(&self, before: &Self) -> bool {
        &&& self.wf()
        &&& self.block_by() == before.block_by()
        &&& self.conv_by() == before.conv_by()
        &&& before.ran().is_prefix_of(self.ran())
        &&& self.ran() == before.ran() + self.since(before)
        &&& before.states().is_prefix_of(self.states())
    }

    /// The runs since an earlier point.
    pub open spec fn since(&self, before: &Self) -> Seq<Run> {
        self.ran().skip(before.ran().len() as int)
    }

    /// Processors in a state, none of which has run yet.
    pub fn new(state: S, block: B, conv: C) -> (r: Self)
        requires
            answers::<S, B, C>(block, conv),
        ensures
            r.wf(),
            r.block_by() == block,
            r.conv_by() == conv,
            r.ran() == Seq::<Run>::empty(),
            r.state_now() == state,
    {
        let ghost states = seq![state];
        Rack {
            state: Some(state),
            block,
            conv,
            runs: Ghost(Seq::empty()),
            states: Ghost(states),
        }
    }

    /// The state the processors are in, taken out.
    pub fn into_state(self) -> (state: S)
        requires
            self.wf(),
        ensures
            state == self.state_now(),
    {
        self.state.unwrap()
    }

    /// Runs a block operation once.
    pub fn run(&mut self, op: BlockOp, input: Vec<Single>) -> (output: Vec<Single>)
        requires
            old(self).wf(),
        ensures
            final(self).went_on(old(self)),
            output@.len() == input@.len(),
            final(self).ran() == old(self).ran().push(
                Run::Block { op, input: input@, output: output@ },
            ),
            final(self).since(old(self)) == seq![
                Run::Block { op, input: input@, output: output@ },
            ],
    {
        let ghost given = input@;
        let state: S = self.state.take().unwrap();
        let ghost before = state;
        let (output, after) = (self.block)(op, input, state);
        proof {
            let run = Run::Block { op, input: given, output: output@ };
            assert(led(self.block, self.conv, before, run, after));
            self.runs@ = self.runs@.push(run);
            self.states@ = self.states@.push(after);
            assert(self.since(old(self)) =~= seq![run]);
            assert(self.ran() =~= old(self).ran() + seq![run]);
        }
        self.state = Some(after);
        output
    }

    /// Runs a convolution once.
    pub fn convolve(&mut self, op: Convolve, input: Vec<Single>) -> (r: (
        Vec<Single>,
        Vec<Single>,
    ))
        requires
            old(self).wf(),
        ensures
            final(self).went_on(old(self)),
            r.0@.len() == input@.len(),
            r.1@.len() == input@.len(),
            final(self).ran() == old(self).ran().push(
                Run::Convolved { by: op, input: input@, first: r.0@, second: r.1@ },
            ),
            final(self).since(old(self)) == seq![
                Run::Convolved { by: op, input: input@, first: r.0@, second: r.1@ },
            ],
    {
        let ghost given = input@;
        let state: S = self.state.take().unwrap();
        let ghost before = state;
        let (first, second, after) = (self.conv)(op, input, state);
        proof {
            let run = Run::Convolved { by: op, input: given, first: first@, second: second@ };
            assert(led(self.block, self.conv, before, run, after));
            self.runs@ = self.runs@.push(run);
            self.states@ = self.states@.push(after);
            assert(self.since(old(self)) =~= seq![run]);
            assert(self.ran() =~= old(self).ran() + seq![run]);
        }
        self.state = Some(after);
        (first, second)
    }

    /// Going on twice is going on once, with the runs of both in turn.
    pub proof fn lemma_went_on(first: &Self, middle: &Self, last: &Self)
        requires
            middle.went_on(first),
            last.went_on(middle),
        ensures
            last.went_on(first),
            last.since(first) == middle.since(first) + last.since(middle),
    {
        assert(last.since(first) =~= middle.since(first) + last.since(middle));
        assert(last.ran() =~= first.ran() + last.since(first));
    }

    /// Nothing has run between a point and itself.
    pub proof fn lemma_nothing_yet(&self)
        requires
            self.wf(),
        ensures
            self.went_on(self),
            self.since(self) == Seq::<Run>::empty(),
    {
        assert(self.since(self) =~= Seq::empty());
        assert(self.ran() =~= self.ran() + Seq::empty());
    }

    /// The runs since an earlier point lead from the state the processors were in to the one they
    /// are in.
    pub proof fn lemma_runs_follow_on(&self, before: &Self)
        requires
            before.wf(),
            self.went_on(before),
        ensures
            ({
                let states = self.states().skip(before.ran().len() as int);
                &&& led_in_turn(self.block_by(), self.conv_by(), states, self.since(before))
                &&& states[0] == before.state_now()
                &&& states.last() == self.state_now()
            }),
    {
        let at = before.ran().len() as int;
        let states = self.states().skip(at);
        assert forall|i: int| 0 <= i < self.since(before).len() implies led(
            self.block_by(),
            self.conv_by(),
            states[i],
            #[trigger] self.since(before)[i],
            states[i + 1],
        ) by {
            assert(self.since(before)[i] == self.ran()[at + i]);
        }
    }
}

/// Processors that are repeatable, asked the same questions in the same order from the same state,
/// give the same answers and end in the same state.
pub proof fn lemma_same_questions_same_answers<S, B, C>(
    block: B,
    conv: C,
    states: Seq<S>,
    runs: Seq<Run>,
    other_states: Seq<S>,
    other_runs: Seq<Run>,
) where
    B: Fn(BlockOp, Vec<Single>, S) -> (Vec<Single>, S),
    C: Fn(Convolve, Vec<Single>, S) -> (Vec<Single>, Vec<Single>, S),

    requires
        repeatable::<S, B, C>(block, conv),
        led_in_turn(block, conv, states, runs),
        led_in_turn(block, conv, other_states, other_runs),
        states[0] == other_states[0],
        runs.len() == other_runs.len(),
        forall|i: int| 0 <= i < runs.len() ==> (#[trigger] runs[i]).same_question(other_runs[i]),
    ensures
        runs == other_runs,
        states == other_states,
    decreases runs.len(),
{
    if runs.len() == 0 {
        assert(runs =~= other_runs);
        assert(states =~= other_states);
    } else {
        let n = runs.len() - 1;
        let (rest, other_rest) = (runs.drop_last(), other_runs.drop_last());
        assert forall|i: int| 0 <= i < rest.len() implies (#[trigger] rest[i]).same_question(
            other_rest[i],
        ) by {
            assert(runs[i].same_question(other_runs[i]));
        }
        assert(led_in_turn(block, conv, states.drop_last(), rest)) by {
            assert forall|i: int| 0 <= i < rest.len() implies led(
                block,
                conv,
                states.drop_last()[i],
                #[trigger] rest[i],
                states.drop_last()[i + 1],
            ) by {
                assert(rest[i] == runs[i]);
            }
        }
        assert(led_in_turn(block, conv, other_states.drop_last(), other_rest)) by {
            assert forall|i: int| 0 <= i < other_rest.len() implies led(
                block,
                conv,
                other_states.drop_last()[i],
                #[trigger] other_rest[i],
                other_states.drop_last()[i + 1],
            ) by {
                assert(other_rest[i] == other_runs[i]);
            }
        }
        lemma_same_questions_same_answers(
            block,
            conv,
            states.drop_last(),
            rest,
            other_states.drop_last(),
            other_rest,
        );
        assert(states[n] == states.drop_last()[n] && other_states[n] == other_states.drop_last()[n]);
        assert(led(block, conv, states[n], runs[n], states[n + 1]));
        assert(led(block, conv, other_states[n], other_runs[n], other_states[n + 1]));
        assert(runs[n].same_question(other_runs[n]));
        assert(runs =~= other_runs) by {
            assert forall|i: int| 0 <= i < runs.len() implies runs[i] == other_runs[i] by {
                if i < n {
                    assert(rest[i] == other_rest[i]);
                }
            }
        }
        assert(states =~= other_states) by {
            assert forall|i: int| 0 <= i < states.len() implies states[i] == other_states[i] by {
                if i <= n {
                    assert(states.drop_last()[i] == other_states.drop_last()[i]);
                }
            }
        }
    }
}

/// Several lists of runs, end to end.
pub open spec fn in_turn(parts: Seq<Seq<Run>>) -> Seq<Run>
    decreases parts.len(),
{
    if parts.len() == 0 {
        Seq::empty()
    } else {
        in_turn(parts.drop_last()) + parts.last()
    }
}

/// One more list of runs at the end.
pub proof fn lemma_in_turn_grows(parts: Seq<Seq<Run>>, part: Seq<Run>)
    ensures
        in_turn(parts.push(part)) == in_turn(parts) + part,
{
    assert(parts.push(part).drop_last() =~= parts);
}

/// Everything that one convolution was handed, in order.
pub open spec fn handed(runs: Seq<Run>, by: Convolve) -> Seq<Single>
    decreases runs.len(),
{
    if runs.len() == 0 {
        Seq::empty()
    } else {
        handed(runs.drop_last(), by) + match runs.last() {
            Run::Convolved { by: run_by, input, .. } if run_by == by => input,
            _ => Seq::empty(),
        }
    }
}

/// Everything that one block operation was handed, in order.
pub open spec fn handed_block(runs: Seq<Run>, op: BlockOp) -> Seq<Single>
    decreases runs.len(),
{
    if runs.len() == 0 {
        Seq::empty()
    } else {
        handed_block(runs.drop_last(), op) + match runs.last() {
            Run::Block { op: run_op, input, .. } if run_op == op => input,
            _ => Seq::empty(),
        }
    }
}

/// Over runs one after the other, a processor is handed one piece after the other: it hears one
/// stream, however many blocks that stream comes in.
pub proof fn lemma_a_processor_hears_one_stream(
    first: Seq<Run>,
    next: Seq<Run>,
    by: Convolve,
    op: BlockOp,
)
    ensures
        handed(first + next, by) == handed(first, by) + handed(next, by),
        handed_block(first + next, op) == handed_block(first, op) + handed_block(next, op),
    decreases next.len(),
{
    if next.len() == 0 {
        assert(first + next =~= first);
        assert(handed(first, by) + handed(next, by) =~= handed(first, by));
        assert(handed_block(first, op) + handed_block(next, op) =~= handed_block(first, op));
    } else {
        let rest = next.drop_last();
        lemma_a_processor_hears_one_stream(first, rest, by, op);
        assert((first + next).drop_last() =~= first + rest);
        assert(handed(first + next, by) =~= handed(first, by) + handed(next, by));
        assert(handed_block(first + next, op) =~= handed_block(first, op) + handed_block(
            next,
            op,
        ));
    }
}

/// `n` samples of silence.
pub open spec fn silence(n: nat) -> Seq<Single> {
    Seq::new(n, |i: int| Single::zero())
}

pub fn copy_samples(samples: &Vec<Single>) -> (r: Vec<Single>)
    ensures
        r@ == samples@,
{
    let mut r: Vec<Single> = Vec::new();
    let mut i: usize = 0;
    while i < samples.len()
        invariant
            i <= samples.len(),
            r@ == samples@.take(i as int),
        decreases samples.len() - i,
    {
        r.push(samples[i]);
        proof {
            assert(samples@.take(i + 1) =~= samples@.take(i as int).push(samples@[i as int]));
        }
        i += 1;
    }
    proof {
        assert(samples@.take(samples@.len() as int) =~= samples@);
    }
    r
}

/// A list of every channel's processor names the processor of each channel once, in order, all of
/// the same kind and owner; which channel it was made from does not matter.
pub proof fn lemma_every_channel_is_listed_once(op: BlockOp, channels: nat, c: int, d: usize)
    requires
        0 <= c < channels <= usize::MAX,
    ensures
        of_every_channel(op, channels).len() == channels,
        of_every_channel(op, channels) == of_every_channel(op.of_channel(d), channels),
        ({
            let listed = of_every_channel(op, channels)[c];
            let channel = c as usize;
            &&& op is Gate ==> listed == (BlockOp::Gate { channel })
            &&& op is TrimGain ==> listed == (BlockOp::TrimGain { channel })
            &&& op is DcBlock ==> listed == (BlockOp::DcBlock { channel })
            &&& op is TrimMeter ==> listed == (BlockOp::TrimMeter { channel })
            &&& op is LowCut ==> listed == (BlockOp::LowCut { channel })
            &&& op is HighCut ==> listed == (BlockOp::HighCut { channel })
            &&& op is Level ==> listed == (BlockOp::Level { channel })
            &&& op matches BlockOp::Model { handle, .. } ==> listed == (BlockOp::Model {
                handle,
                channel,
            })
            &&& op matches BlockOp::ResampledModel { handle, .. } ==> listed == (
            BlockOp::ResampledModel { handle, channel })
            &&& op matches BlockOp::NormalizeGain { handle, target_db, .. } ==> listed == (
            BlockOp::NormalizeGain { handle, channel, target_db })
        }),
{
    assert(of_every_channel(op, channels) =~= of_every_channel(op.of_channel(d), channels));
}

} // verus!
