//! The four stages, run on real samples with a small shell around them: a model with one sample of
//! memory, direct convolution, linear gate ramps and second-order cuts.

use std::cell::RefCell;
use std::collections::HashMap;
use std::f32::consts::FRAC_PI_2;

use namir::command::{Command, CommandKind, RetireSink};
use namir::dsp::{BlockOp, Convolve, Rack, SampleOp};
use namir::gate::{GateParams, GatePrep, GateStage};
use namir::handover::Crossfade;
use namir::ir::{CutTarget, IrInfo, IrPrep, IrStage, IrUpdate};
use namir::nam::{ModelInfo, NamPrep, NamStage};
use namir::param::{ParamChange, ParamId, TelemetryEntry};
use namir::prepare::{ChannelConfig, PrepareContext, SampleRate};
use namir::resource::{Resource, ResourceKind};
use namir::ring::RingProducer;
use namir::single::Single;
use namir::stage_io::StageIo;
use namir::trim::{TrimPrep, TrimReading, TrimStage};
use rubato::{FftFixedInOut, Resampler};

const BYPASS_CROSSFADE_TIME_CONSTANT_MS: f64 = 15.0;
const GAIN_RAMP_TIME_CONSTANT_MS: f64 = 25.0;
const DOWNMIX_EACH_TERM_DB: f32 = -6.0;

fn single(x: f32) -> Single {
    Single::from_bits(x.to_bits())
}

fn number(x: Single) -> f32 {
    f32::from_bits(x.bits)
}

fn singles(x: &[f32]) -> Vec<Single> {
    x.iter().map(|&s| single(s)).collect()
}

fn numbers(x: &[Single]) -> Vec<f32> {
    x.iter().map(|&s| number(s)).collect()
}

fn db_to_linear(db: f32) -> f32 {
    10f32.powf(db / 20.0)
}

fn linear_to_db(x: f32) -> f32 {
    20.0 * x.log10()
}

fn one_pole(time_constant_ms: f64, hz: u32) -> f32 {
    let tau_samples = time_constant_ms / 1000.0 * f64::from(hz);
    (1.0 - (-1.0 / tau_samples).exp()) as f32
}

fn change(key: &str, value: f32) -> ParamChange {
    ParamChange { id: ParamId::from_key(key), value: single(value) }
}

fn ctx(hz: u32, channel_config: ChannelConfig) -> PrepareContext {
    PrepareContext {
        sample_rate: SampleRate::new(hz).expect("a rate above zero"),
        max_block_size: 64,
        channel_config,
    }
}

fn info(handle: u64, hz: u32) -> ModelInfo {
    ModelInfo {
        handle,
        sample_rate: SampleRate::new(hz).expect("a rate above zero"),
        loudness_correction_db: None,
    }
}

/// A gain that approaches its target through a one-pole.
struct Ramp {
    current: f32,
    target: f32,
    coeff: f32,
}

impl Ramp {
    fn settled_at(db: f32, hz: u32) -> Self {
        let g = db_to_linear(db);
        Ramp { current: g, target: g, coeff: one_pole(GAIN_RAMP_TIME_CONSTANT_MS, hz) }
    }

    fn run(&mut self, x: &mut [f32]) {
        for s in x {
            self.current += self.coeff * (self.target - self.current);
            *s *= self.current;
        }
    }
}

/// What a handle stands for: an output scale, and whether the last input counts.
#[derive(Clone, Copy)]
struct Model {
    head_scale: f32,
    memory: f32,
}

impl Model {
    fn run(&self, last: &mut f32, x: &mut [f32]) {
        for s in x {
            let input = *s;
            *s = self.head_scale * (1.5 * input + self.memory * *last).tanh();
            *last = input;
        }
    }
}

struct Pair {
    into_model: FftFixedInOut<f32>,
    out_of_model: FftFixedInOut<f32>,
}

/// A second-order section in transposed form.
#[derive(Clone, Copy, Default)]
struct Section {
    b: [f64; 3],
    a: [f64; 2],
    z: [f64; 2],
}

impl Section {
    fn at(target: CutTarget, hz: u32) -> Self {
        let (freq, high_pass) = match target {
            CutTarget::Identity => {
                return Section { b: [1.0, 0.0, 0.0], a: [0.0; 2], z: [0.0; 2] };
            }
            CutTarget::HighPass { freq_hz } => (number(freq_hz), true),
            CutTarget::LowPass { freq_hz } => (number(freq_hz), false),
        };
        let w = std::f64::consts::TAU * f64::from(freq) / f64::from(hz);
        let alpha = w.sin() / 2.0 * std::f64::consts::SQRT_2;
        let a0 = 1.0 + alpha;
        let side = if high_pass { (1.0 + w.cos()) / 2.0 } else { (1.0 - w.cos()) / 2.0 };
        let middle = if high_pass { -2.0 * side } else { 2.0 * side };
        Section {
            b: [side / a0, middle / a0, side / a0],
            a: [-2.0 * w.cos() / a0, (1.0 - alpha) / a0],
            z: [0.0; 2],
        }
    }

    fn run(&mut self, x: &mut [f32]) {
        for s in x {
            let input = f64::from(*s);
            let y = self.b[0] * input + self.z[0];
            self.z[0] = self.b[1] * input - self.a[0] * y + self.z[1];
            self.z[1] = self.b[2] * input - self.a[1] * y;
            *s = y as f32;
        }
    }
}

/// A gate with linear opening and closing ramps.
#[derive(Clone, Copy, Default)]
struct Gate {
    gain: f32,
    held: f32,
}

impl Gate {
    fn run(&mut self, params: GateParams, hz: u32, x: &mut [f32]) {
        let per_ms = hz as f32 / 1000.0;
        let threshold = db_to_linear(number(params.threshold_db));
        for s in x {
            let loud = s.abs() > threshold;
            *s *= self.gain;
            if loud {
                self.held = number(params.hold_ms) * per_ms;
                self.gain += 1.0 / (number(params.attack_ms) * per_ms);
            } else if self.held >= 1.0 {
                self.held -= 1.0;
            } else {
                self.gain -= 1.0 / (number(params.release_ms) * per_ms);
            }
            self.gain = self.gain.clamp(0.0, 1.0);
        }
    }
}

struct Inner {
    models: HashMap<u64, Model>,
    memory: HashMap<(u64, usize), f32>,
    loudness: HashMap<(u64, usize), Ramp>,
    pairs: HashMap<(u64, usize), Pair>,
    rates: HashMap<u64, u32>,
    taps: HashMap<u64, Vec<Vec<f32>>>,
    history: HashMap<(u64, usize), Vec<f32>>,
    gates: [Gate; 2],
    gate_params: Option<GateParams>,
    trim: [Ramp; 2],
    dc: [(f32, f32); 2],
    clipped: [bool; 2],
    metered: Vec<(usize, f32)>,
    low: [Section; 2],
    high: [Section; 2],
    level: [Ramp; 2],
}

/// What ran, in order.
#[derive(Clone, Copy, Debug, PartialEq)]
enum Ran {
    Block(BlockOp),
    Convolved(Convolve),
}

struct Shell {
    hz: u32,
    glide: f32,
    ran: RefCell<Vec<Ran>>,
    inner: RefCell<Inner>,
}

impl Shell {
    fn new(hz: u32) -> Self {
        let open = Section::at(CutTarget::Identity, hz);
        Shell {
            hz,
            glide: one_pole(BYPASS_CROSSFADE_TIME_CONSTANT_MS, hz),
            ran: RefCell::new(Vec::new()),
            inner: RefCell::new(Inner {
                models: HashMap::new(),
                memory: HashMap::new(),
                loudness: HashMap::new(),
                pairs: HashMap::new(),
                rates: HashMap::new(),
                taps: HashMap::new(),
                history: HashMap::new(),
                gates: [Gate::default(); 2],
                gate_params: None,
                trim: [Ramp::settled_at(0.0, hz), Ramp::settled_at(0.0, hz)],
                dc: [(0.0, 0.0); 2],
                clipped: [false; 2],
                metered: Vec::new(),
                low: [open; 2],
                high: [open; 2],
                level: [Ramp::settled_at(0.0, hz), Ramp::settled_at(0.0, hz)],
            }),
        }
    }

    fn model(&self, handle: u64, hz: u32, head_scale: f32, memory: f32) -> ModelInfo {
        let mut inner = self.inner.borrow_mut();
        inner.models.insert(handle, Model { head_scale, memory });
        inner.rates.insert(handle, hz);
        info(handle, hz)
    }

    fn tiny_model(&self, handle: u64, hz: u32) -> ModelInfo {
        self.model(handle, hz, 0.5, 0.4)
    }

    fn impulse_response(&self, handle: u64, channels: &[&[f32]]) -> IrInfo {
        let taps: Vec<Vec<f32>> = channels.iter().map(|c| c.to_vec()).collect();
        let len_samples = taps[0].len();
        let channel_count = taps.len();
        self.inner.borrow_mut().taps.insert(handle, taps);
        IrInfo { handle, channel_count, len_samples }
    }

    fn arith(&self, op: SampleOp) -> Single {
        single(match op {
            SampleOp::Fade { outgoing, incoming, progress, total } => {
                let t = progress as f32 / total as f32 * FRAC_PI_2;
                number(outgoing) * t.cos() + number(incoming) * t.sin()
            }
            SampleOp::Glide { mix, target } => {
                number(mix) + self.glide * (number(target) - number(mix))
            }
            SampleOp::Blend { dry, wet, mix } => {
                number(dry) * (1.0 - number(mix)) + number(wet) * number(mix)
            }
            SampleOp::Downmix { left, right } => {
                let g = db_to_linear(DOWNMIX_EACH_TERM_DB);
                number(left) * g + number(right) * g
            }
            SampleOp::Sum { a, b } => number(a) + number(b),
        })
    }

    fn block(&self, op: BlockOp, input: Vec<Single>) -> Vec<Single> {
        let mut guard = self.inner.borrow_mut();
        let inner = &mut *guard;
        let mut x = numbers(&input);
        match op {
            BlockOp::Model { handle, channel } => {
                let last = inner.memory.entry((handle, channel)).or_insert(0.0);
                inner.models[&handle].run(last, &mut x);
            }
            BlockOp::ResampledModel { handle, channel } => {
                let (engine, model) = (self.hz as usize, inner.rates[&handle] as usize);
                let frames = x.len();
                let pair = inner.pairs.entry((handle, channel)).or_insert_with(|| {
                    let into_model = FftFixedInOut::<f32>::new(engine, model, frames, 1)
                        .expect("both rates are above zero");
                    let out = into_model.output_frames_next();
                    let out_of_model = FftFixedInOut::<f32>::new(model, engine, out, 1)
                        .expect("both rates are above zero");
                    Pair { into_model, out_of_model }
                });
                let mut at_model = pair.into_model.process(&[&x], None).expect("one whole block");
                let last = inner.memory.entry((handle, channel)).or_insert(0.0);
                inner.models[&handle].run(last, &mut at_model[0]);
                x = pair
                    .out_of_model
                    .process(&at_model, None)
                    .expect("one whole block")
                    .remove(0);
            }
            BlockOp::NormalizeGain { handle, channel, target_db } => {
                let hz = self.hz;
                let ramp = inner
                    .loudness
                    .entry((handle, channel))
                    .or_insert_with(|| Ramp::settled_at(0.0, hz));
                ramp.target = db_to_linear(number(target_db));
                ramp.run(&mut x);
            }
            BlockOp::Gate { channel } => {
                let params = inner.gate_params.expect("a prepared stage");
                inner.gates[channel].run(params, self.hz, &mut x);
            }
            BlockOp::TrimGain { channel } => inner.trim[channel].run(&mut x),
            BlockOp::DcBlock { channel } => {
                let r = 1.0 - std::f32::consts::TAU * 20.0 / self.hz as f32;
                let (last_in, last_out) = &mut inner.dc[channel];
                for s in &mut x {
                    let y = *s - *last_in + r * *last_out;
                    *last_in = *s;
                    *last_out = y;
                    *s = y;
                }
            }
            BlockOp::TrimMeter { channel } => {
                let peak = x.iter().fold(0.0f32, |m, s| m.max(s.abs()));
                inner.clipped[channel] |= peak > 1.0;
                inner.metered.push((channel, peak));
            }
            BlockOp::LowCut { channel } => inner.low[channel].run(&mut x),
            BlockOp::HighCut { channel } => inner.high[channel].run(&mut x),
            BlockOp::Level { channel } => inner.level[channel].run(&mut x),
        }
        singles(&x)
    }

    fn conv(&self, op: Convolve, input: Vec<Single>) -> (Vec<Single>, Vec<Single>) {
        let mut guard = self.inner.borrow_mut();
        let inner = &mut *guard;
        let x = numbers(&input);
        let taps = &inner.taps[&op.handle];
        let longest = taps[0].len();
        let history =
            inner.history.entry((op.handle, op.channel)).or_insert_with(|| vec![0.0; longest]);
        let mut outs = vec![Vec::new(), vec![0.0; x.len()]];
        let start = history.len();
        history.extend_from_slice(&x);
        for (c, h) in taps.iter().enumerate() {
            outs[c] = (0..x.len())
                .map(|n| h.iter().enumerate().map(|(k, t)| t * history[start + n - k]).sum())
                .collect();
        }
        let keep = history.len() - longest;
        history.drain(..keep);
        (singles(&outs[0]), singles(&outs[1]))
    }

    fn take_update(&self, update: IrUpdate) {
        let mut inner = self.inner.borrow_mut();
        match update {
            IrUpdate::Nothing => {}
            IrUpdate::Level { target_db } => {
                for ramp in &mut inner.level {
                    ramp.target = db_to_linear(number(target_db));
                }
            }
            IrUpdate::LowCut { target, .. } => inner.low = [Section::at(target, self.hz); 2],
            IrUpdate::HighCut { target, .. } => inner.high = [Section::at(target, self.hz); 2],
        }
    }

    fn take_gain(&self, target_db: Option<Single>) {
        if let Some(db) = target_db {
            for ramp in &mut self.inner.borrow_mut().trim {
                ramp.target = db_to_linear(number(db));
            }
        }
    }

    fn take_gate(&self, params: Option<GateParams>) {
        if params.is_some() {
            self.inner.borrow_mut().gate_params = params;
        }
    }
}

/// A stage and the shell it runs in.
enum Stage {
    Nam(NamStage),
    Ir(IrStage),
    Gate(GateStage),
    Trim(TrimStage),
}

fn run_block(stage: &mut Stage, shell: &Shell, channels: Vec<Vec<f32>>) -> Vec<Vec<f32>> {
    let frames = channels[0].len();
    let channels: Vec<Vec<Single>> = channels.iter().map(|c| singles(c)).collect();
    let mut io = StageIo::new(channels, frames).expect("channels of one length");
    let arith = |op: SampleOp| shell.arith(op);
    let mut rack = Rack::new(
        shell.ran.take(),
        |op: BlockOp, v: Vec<Single>, mut ran: Vec<Ran>| {
            ran.push(Ran::Block(op));
            (shell.block(op, v), ran)
        },
        |op: Convolve, v: Vec<Single>, mut ran: Vec<Ran>| {
            ran.push(Ran::Convolved(op));
            let (first, second) = shell.conv(op, v);
            (first, second, ran)
        },
    );
    match stage {
        Stage::Nam(s) => s.process(&mut io, &mut rack, arith),
        Stage::Ir(s) => s.process(&mut io, &mut rack, arith),
        Stage::Gate(s) => s.process(&mut io, &mut rack, arith),
        Stage::Trim(s) => s.process(&mut io, &mut rack, arith),
    }
    shell.ran.replace(rack.into_state());
    io.channels.iter().map(|c| numbers(c)).collect()
}

fn run(stage: &mut Stage, shell: &Shell, input: &[f32]) -> Vec<f32> {
    let mut out = Vec::new();
    for chunk in input.chunks(64) {
        out.extend(run_block(stage, shell, vec![chunk.to_vec()]).remove(0));
    }
    out
}

fn run_stereo(
    stage: &mut Stage,
    shell: &Shell,
    left: &[f32],
    right: &[f32],
) -> (Vec<f32>, Vec<f32>) {
    let (mut out_left, mut out_right) = (Vec::new(), Vec::new());
    for (l, r) in left.chunks(64).zip(right.chunks(64)) {
        let mut out = run_block(stage, shell, vec![l.to_vec(), r.to_vec()]);
        out_right.extend(out.remove(1));
        out_left.extend(out.remove(0));
    }
    (out_left, out_right)
}

fn run_constant(stage: &mut Stage, shell: &Shell, total: usize, value: f32) -> Vec<f32> {
    run(stage, shell, &vec![value; total])
}

fn nam_stage(hz: u32, config: ChannelConfig) -> NamStage {
    NamPrep.prepare(&ctx(hz, config))
}

fn ir_stage(hz: u32, config: ChannelConfig) -> IrStage {
    IrPrep.prepare(&ctx(hz, config))
}

fn gate_stage(shell: &Shell, config: ChannelConfig) -> GateStage {
    let stage = GatePrep.prepare(&ctx(shell.hz, config));
    shell.take_gate(Some(stage.params));
    stage
}

fn trim_stage(config: ChannelConfig) -> TrimStage {
    TrimPrep.prepare(&ctx(48_000, config))
}

fn nam(stage: &mut Stage) -> &mut NamStage {
    match stage {
        Stage::Nam(s) => s,
        _ => unreachable!(),
    }
}

fn ir(stage: &mut Stage) -> &mut IrStage {
    match stage {
        Stage::Ir(s) => s,
        _ => unreachable!(),
    }
}

fn sine_signal(total: usize) -> Vec<f32> {
    (0..total).map(|i| 0.2 * ((i as f32) * 0.01).sin()).collect()
}

fn other_signal(total: usize) -> Vec<f32> {
    (0..total).map(|i| 0.15 * ((i as f32) * 0.037).sin()).collect()
}

fn rms_db(samples: &[f32]) -> f32 {
    let sum: f64 = samples.iter().map(|&s| f64::from(s) * f64::from(s)).sum();
    linear_to_db((sum / samples.len() as f64).sqrt() as f32)
}

fn largest_step(start: f32, out: &[f32]) -> f32 {
    let mut prev = start;
    let mut largest = 0.0f32;
    for &s in out {
        largest = largest.max((s - prev).abs());
        prev = s;
    }
    largest
}

fn direct_convolve(h: &[f32], x: &[f32]) -> Vec<f32> {
    (0..x.len())
        .map(|n| h.iter().enumerate().filter(|(k, _)| *k <= n).map(|(k, t)| t * x[n - k]).sum())
        .collect()
}

fn return_ring() -> (RingProducer<Resource>, rtrb::Consumer<Resource>) {
    let (producer, consumer) = rtrb::RingBuffer::<Resource>::new(4);
    (RingProducer::new(producer), consumer)
}

// ---------------------------------------------------------------------------------------------
// The model stage.

#[test]
fn nam_nothing_loaded_is_exact_passthrough() {
    let shell = Shell::new(48_000);
    let mut stage = Stage::Nam(nam_stage(48_000, ChannelConfig::Mono));
    let out = run_constant(&mut stage, &shell, 48_000, 0.37);
    let tail = *out.last().unwrap();
    assert!((tail - 0.37).abs() < 1e-6, "{tail}");
}

#[test]
fn load_model_settles_to_match_direct_process_block() {
    let shell = Shell::new(48_000);
    let mut stage = Stage::Nam(nam_stage(48_000, ChannelConfig::Mono));
    let model = shell.tiny_model(1, 48_000);
    nam(&mut stage).load_model(model);
    let input = sine_signal(48_000);
    let out = run(&mut stage, &shell, &input);
    let mut reference = input.clone();
    Model { head_scale: 0.5, memory: 0.4 }.run(&mut 0.0, &mut reference);
    for i in 19_200..48_000 {
        assert!((out[i] - reference[i]).abs() < 1e-5, "sample {i}: {} vs {}", out[i], reference[i]);
    }
}

#[test]
fn nam_handover_crossfade_has_no_large_single_sample_jump() {
    let shell = Shell::new(48_000);
    let mut stage = Stage::Nam(nam_stage(48_000, ChannelConfig::Mono));
    let model_a = shell.tiny_model(1, 48_000);
    let model_b = shell.model(2, 48_000, -0.5, 0.1);
    nam(&mut stage).load_model(model_a);
    let settled = run_constant(&mut stage, &shell, 48_000, 0.1);
    nam(&mut stage).load_model(model_b);
    let out = run_constant(&mut stage, &shell, 4_800, 0.1);
    let jump = largest_step(*settled.last().unwrap(), &out);
    assert!(jump < 0.5, "{jump}");
    assert!(jump < 0.001, "two settled outputs 0.1 apart fade over 960 samples: {jump}");
}

#[test]
fn nam_bypass_toggle_mid_signal_is_click_free() {
    let shell = Shell::new(48_000);
    let mut stage = Stage::Nam(nam_stage(48_000, ChannelConfig::Mono));
    let model = shell.tiny_model(1, 48_000);
    nam(&mut stage).load_model(model);
    let value = 0.2f32;
    let settled_wet = *run_constant(&mut stage, &shell, 48_000, value).last().unwrap();
    let range = (settled_wet - value).abs();
    assert!(range > 1e-3);
    nam(&mut stage).apply(change("nam.enabled", 0.0));
    let out = run_constant(&mut stage, &shell, 9_600, value);
    let max_delta = largest_step(settled_wet, &out);
    let ideal = range * one_pole(BYPASS_CROSSFADE_TIME_CONSTANT_MS, 48_000);
    assert!(max_delta <= ideal * 1.01, "{max_delta} vs {ideal}");
    assert!(max_delta > 0.0);
    let tail = *out.last().unwrap();
    assert!((tail - value).abs() < 1e-3, "{tail}");
}

#[test]
fn every_multi_channel_configuration_duplicates_one_mono_core_result() {
    const FRAMES: usize = 24_000;
    const SETTLE: usize = 19_200;
    let left = sine_signal(FRAMES);
    let right = other_signal(FRAMES);

    let shell = Shell::new(48_000);
    let mut mono = Stage::Nam(nam_stage(48_000, ChannelConfig::Mono));
    nam(&mut mono).load_model(shell.tiny_model(1, 48_000));
    let mono_out = run(&mut mono, &shell, &left);

    for config in [ChannelConfig::Stereo, ChannelConfig::MonoToStereo] {
        let shell = Shell::new(48_000);
        let mut stage = Stage::Nam(nam_stage(48_000, config));
        nam(&mut stage).load_model(shell.tiny_model(1, 48_000));
        let (out_left, out_right) = run_stereo(&mut stage, &shell, &left, &right);
        for i in SETTLE..FRAMES {
            assert!((out_left[i] - out_right[i]).abs() < 1e-4, "{config:?}: sample {i}");
            assert!((out_left[i] - mono_out[i]).abs() < 1e-5, "{config:?}: sample {i}");
        }
        assert!(left.iter().zip(&right).any(|(l, r)| (l - r).abs() > 0.05));
        let discarded = right[SETTLE..]
            .iter()
            .zip(&out_right[SETTLE..])
            .map(|(dry, out)| (dry - out).abs())
            .fold(0.0f32, f32::max);
        assert!(discarded > 0.05, "{config:?}: {discarded}");
    }
}

#[test]
fn independent_mode_runs_a_full_separate_core_per_channel() {
    const FRAMES: usize = 24_000;
    const SETTLE: usize = 19_200;
    let left = sine_signal(FRAMES);
    let right = other_signal(FRAMES);
    let mut alone = Vec::new();
    for signal in [&left, &right] {
        let shell = Shell::new(48_000);
        let mut stage = Stage::Nam(nam_stage(48_000, ChannelConfig::Mono));
        nam(&mut stage).load_model(shell.tiny_model(1, 48_000));
        alone.push(run(&mut stage, &shell, signal));
    }
    let shell = Shell::new(48_000);
    let mut stereo = Stage::Nam(nam_stage(48_000, ChannelConfig::Stereo));
    nam(&mut stereo).apply(change("global.independent_channels", 1.0));
    nam(&mut stereo).load_model(shell.tiny_model(1, 48_000));
    let (out_left, out_right) = run_stereo(&mut stereo, &shell, &left, &right);
    for i in SETTLE..FRAMES {
        assert!((out_left[i] - alone[0][i]).abs() < 1e-5, "left: sample {i}");
        assert!((out_right[i] - alone[1][i]).abs() < 1e-5, "right: sample {i}");
    }
    assert!(left.iter().zip(&right).any(|(l, r)| (l - r).abs() > 0.05));
}

#[test]
fn disabled_stage_is_passthrough_even_with_a_model_loaded() {
    let shell = Shell::new(48_000);
    let mut stage = Stage::Nam(nam_stage(48_000, ChannelConfig::Mono));
    nam(&mut stage).apply(change("nam.enabled", 0.0));
    nam(&mut stage).load_model(shell.tiny_model(1, 48_000));
    let out = run_constant(&mut stage, &shell, 48_000, 0.42);
    let tail = *out.last().unwrap();
    assert!((tail - 0.42).abs() < 1e-4, "{tail}");
}

#[test]
fn the_resampled_stages_reported_latency_is_the_delay_the_signal_actually_sees() {
    const FRAMES: usize = 32_768;
    const WARMUP: usize = 8_192;
    const WINDOW: usize = 8_192;
    let signal: Vec<f32> = (0..FRAMES)
        .map(|i| {
            let t = i as f64 / 48_000.0;
            let length = FRAMES as f64 / 48_000.0;
            let phase = 200.0 * t + (6_000.0 - 200.0) * t * t / (2.0 * length);
            (0.25 * (std::f64::consts::TAU * phase).sin()) as f32
        })
        .collect();
    let measure = |declared: u32| {
        let shell = Shell::new(48_000);
        let mut stage = Stage::Nam(nam_stage(48_000, ChannelConfig::Mono));
        nam(&mut stage).load_model(shell.model(1, declared, 0.5, 0.0));
        let out = run(&mut stage, &shell, &signal);
        (nam(&mut stage).latency_samples(), out)
    };
    let (none, at_engine_rate) = measure(48_000);
    assert_eq!(none, 0);
    let (reported, resampled) = measure(44_100);
    assert_eq!(reported, 640);
    let reference = &at_engine_rate[WARMUP..WARMUP + WINDOW];
    let mut best = (0usize, f64::MIN);
    for lag in 0..reported as usize * 2 + 64 {
        let window = &resampled[WARMUP + lag..WARMUP + lag + WINDOW];
        let dot: f64 = reference.iter().zip(window).map(|(a, b)| f64::from(a * b)).sum();
        if dot > best.1 {
            best = (lag, dot);
        }
    }
    assert_eq!(best.0, reported as usize);
}

#[test]
fn nam_a_first_load_engages_the_bypass_blend_for_the_whole_fade() {
    let shell = Shell::new(48_000);
    let mut stage = Stage::Nam(nam_stage(48_000, ChannelConfig::Mono));
    assert_eq!(number(nam(&mut stage).mix), 0.0);
    assert_eq!(number(nam(&mut stage).mix_target), 0.0);
    nam(&mut stage).load_model(shell.tiny_model(1, 48_000));
    assert_eq!(number(nam(&mut stage).mix_target), 1.0);
    assert_eq!(number(nam(&mut stage).mix), 1.0);

    let input: Vec<f32> = (0..64).map(|i| 0.2 * ((i as f32) * 0.05).sin()).collect();
    let out = run(&mut stage, &shell, &input);
    assert_eq!(out[0].to_bits(), input[0].to_bits());
    let divergence = out.iter().zip(&input).position(|(a, b)| a.to_bits() != b.to_bits());
    assert_eq!(divergence, Some(1));
    assert!(nam(&mut stage).handover.crossfade.is_some());
}

#[test]
fn a_replacement_load_snaps_nothing() {
    let shell = Shell::new(48_000);
    let mut stage = Stage::Nam(nam_stage(48_000, ChannelConfig::Mono));
    nam(&mut stage).load_model(shell.tiny_model(1, 48_000));
    run_constant(&mut stage, &shell, 48_000, 0.1);
    assert!(!nam(&mut stage).wet_path_is_transparent());
    nam(&mut stage).apply(change("nam.enabled", 0.0));
    run_constant(&mut stage, &shell, 64, 0.1);
    let mid_ramp = number(nam(&mut stage).mix);
    assert!(mid_ramp > 0.0 && mid_ramp < 1.0, "{mid_ramp}");
    nam(&mut stage).load_model(shell.tiny_model(2, 48_000));
    assert_eq!(number(nam(&mut stage).mix), mid_ramp);
}

#[test]
fn nam_a_handover_deferred_by_a_full_retire_pen_finalizes_once_the_pen_clears() {
    const PAST_A_FADE: usize = 2_048;
    const MID_FADE: usize = 128;
    let shell = Shell::new(48_000);
    let mut stage = Stage::Nam(nam_stage(48_000, ChannelConfig::Mono));

    nam(&mut stage).load_model(shell.tiny_model(1, 48_000));
    run_constant(&mut stage, &shell, PAST_A_FADE, 0.1);
    assert_eq!(nam(&mut stage).handover.active, 1);
    assert!(nam(&mut stage).handover.crossfade.is_none());
    assert!(nam(&mut stage).handover.retired.is_none());

    nam(&mut stage).load_model(shell.tiny_model(2, 48_000));
    run_constant(&mut stage, &shell, MID_FADE, 0.1);
    nam(&mut stage).load_model(shell.tiny_model(3, 48_000));
    assert_eq!(nam(&mut stage).handover.retired.as_ref().unwrap().slot.handle, 2);

    run_constant(&mut stage, &shell, PAST_A_FADE, 0.1);
    let total = nam(&mut stage).handover.crossfade_total_samples;
    assert_eq!(total, 960);
    assert_eq!(
        nam(&mut stage).handover.crossfade,
        Some(Crossfade { remaining: 0, total, prime: 0 })
    );
    assert_eq!(nam(&mut stage).handover.active, 1);

    let (mut producer, mut consumer) = return_ring();
    {
        let mut sink = RetireSink::new(&mut producer);
        nam(&mut stage).collect_retired(&mut sink);
        assert_eq!(sink.rejected(), 0);
    }
    assert!(nam(&mut stage).handover.retired.is_none());
    match consumer.pop() {
        Ok(Resource::Nam(slot, _)) => assert_eq!(slot.handle, 2),
        _ => panic!("the displaced slot reached the ring"),
    }

    run_constant(&mut stage, &shell, 64, 0.1);
    let h = &nam(&mut stage).handover;
    assert!(h.crossfade.is_none());
    assert_eq!(h.active, 0);
    assert_eq!(h.retired.as_ref().unwrap().slot.handle, 1);
    assert_eq!(h.slots[0].as_ref().unwrap().handle, 3);
    assert_eq!(number(nam(&mut stage).mix_target), 1.0);
}

#[test]
fn a_deferred_first_handover_does_not_leave_the_stage_bypassed_forever() {
    const PAST_A_FADE: usize = 2_048;
    const MID_FADE: usize = 128;
    let shell = Shell::new(48_000);
    let mut stage = Stage::Nam(nam_stage(48_000, ChannelConfig::Mono));
    let collect = |stage: &mut Stage| {
        let (mut producer, _consumer) = return_ring();
        let mut sink = RetireSink::new(&mut producer);
        nam(stage).collect_retired(&mut sink);
    };
    nam(&mut stage).load_model(shell.tiny_model(1, 48_000));
    run_constant(&mut stage, &shell, PAST_A_FADE, 0.1);
    collect(&mut stage);
    nam(&mut stage).unload();
    run_constant(&mut stage, &shell, PAST_A_FADE, 0.1);
    assert_eq!(number(nam(&mut stage).mix_target), 0.0);
    collect(&mut stage);

    nam(&mut stage).load_model(shell.tiny_model(2, 48_000));
    run_constant(&mut stage, &shell, MID_FADE, 0.1);
    nam(&mut stage).load_model(shell.tiny_model(3, 48_000));
    assert!(nam(&mut stage).handover.retired.is_some());
    run_constant(&mut stage, &shell, PAST_A_FADE, 0.1);
    assert_eq!(number(nam(&mut stage).mix_target), 1.0);

    collect(&mut stage);
    run_constant(&mut stage, &shell, 64, 0.1);
    assert!(nam(&mut stage).handover.crossfade.is_none());
    assert_eq!(nam(&mut stage).handover.active, 1);
    assert_eq!(number(nam(&mut stage).mix_target), 1.0);
}

#[test]
fn latency_reports_the_active_slots_resampler_latency() {
    let shell = Shell::new(48_000);
    let mut same = Stage::Nam(nam_stage(48_000, ChannelConfig::Mono));
    assert_eq!(nam(&mut same).latency_samples(), 0);
    nam(&mut same).load_model(shell.tiny_model(1, 48_000));
    run_constant(&mut same, &shell, 48_000, 0.0);
    assert_eq!(nam(&mut same).latency_samples(), 0);

    let mut resampled = Stage::Nam(nam_stage(48_000, ChannelConfig::Mono));
    nam(&mut resampled).load_model(shell.tiny_model(2, 44_100));
    run_constant(&mut resampled, &shell, 48_000, 0.0);
    assert!(nam(&mut resampled).latency_samples() > 0);
    assert_eq!(nam(&mut resampled).latency_samples(), 640);
}

#[test]
fn resampled_path_runs_many_varying_blocks_without_allocating_or_panicking() {
    let shell = Shell::new(48_000);
    let mut stage = Stage::Nam(nam_stage(48_000, ChannelConfig::Mono));
    nam(&mut stage).load_model(shell.tiny_model(1, 44_100));
    let sizes = [64usize, 1, 37, 64, 3, 64, 64, 17];
    for (i, &n) in sizes.iter().cycle().take(200).enumerate() {
        let value = 0.1 * ((i as f32) * 0.05).sin();
        let out = run_block(&mut stage, &shell, vec![vec![value; n]]).remove(0);
        assert_eq!(out.len(), n);
        assert!(out.iter().all(|s| s.is_finite()), "iteration {i}");
    }
}

/// A stage with one model of a declared loudness, brought to -18.
fn loud_stage(
    shell: &Shell,
    head_scale: f32,
    loudness: Option<f32>,
    changes: &[ParamChange],
) -> Stage {
    let mut stage = nam_stage(48_000, ChannelConfig::Mono);
    for &c in changes {
        stage.apply(c);
    }
    let mut model = shell.model(1, 48_000, head_scale, 0.4);
    model.loudness_correction_db = loudness.map(|l| single(-18.0 - l));
    stage.load_model(model);
    Stage::Nam(stage)
}

const NORMALIZE_SETTLE_SAMPLES: usize = 19_200;

fn settled_level(head_scale: f32, loudness: Option<f32>, changes: &[ParamChange]) -> f32 {
    let shell = Shell::new(48_000);
    let mut stage = loud_stage(&shell, head_scale, loudness, changes);
    let out = run(&mut stage, &shell, &sine_signal(48_000));
    rms_db(&out[NORMALIZE_SETTLE_SAMPLES..])
}

#[test]
fn normalization_enabled_brings_differently_declared_models_within_one_lu() {
    let quiet = settled_level(0.5, Some(-20.0), &[]);
    let loud = settled_level(1.0, Some(-14.0), &[]);
    assert!((quiet - loud).abs() <= 1.0, "{quiet} {loud}");
}

#[test]
fn normalization_disabled_leaves_models_at_their_original_relative_levels() {
    let off = [change("nam.normalize_enabled", 0.0)];
    let quiet = settled_level(0.5, Some(-20.0), &off);
    let loud = settled_level(1.0, Some(-14.0), &off);
    assert!((loud - quiet - 6.02).abs() < 0.5, "{quiet} {loud}");
}

#[test]
fn offset_parameter_shifts_the_applied_gain_by_the_expected_amount() {
    let baseline = settled_level(0.5, Some(-20.0), &[]);
    let offset = settled_level(0.5, Some(-20.0), &[change("nam.normalize_offset_db", 6.0)]);
    assert!((offset - baseline - 6.0).abs() < 0.5, "{baseline} {offset}");
}

#[test]
fn model_with_no_declared_loudness_gets_zero_normalization_gain() {
    let on = settled_level(0.5, None, &[]);
    let off = settled_level(0.5, None, &[change("nam.normalize_enabled", 0.0)]);
    assert!((on - off).abs() < 0.05, "{on} {off}");
}

#[test]
fn a_model_prepared_for_other_figures_goes_straight_to_the_pen() {
    let mut stage = nam_stage(48_000, ChannelConfig::Mono);
    let other = ctx(44_100, ChannelConfig::Mono);
    let Command::Load(resource) = Command::load_nam(info(7, 44_100), &other) else {
        panic!("a load");
    };
    let mut offer = Some(resource);
    stage.accept_resource(&mut offer);
    assert!(offer.is_none());
    assert_eq!(stage.handover.retired.as_ref().unwrap().slot.handle, 7);
    assert_eq!(stage.handover.retired.as_ref().unwrap().ctx, other);
    assert!(stage.handover.crossfade.is_none());
    assert!(stage.wet_path_is_transparent());
}

#[test]
fn an_offer_that_finds_the_pen_occupied_stays_on_offer() {
    let here = ctx(48_000, ChannelConfig::Mono);
    let mut stage = nam_stage(48_000, ChannelConfig::Mono);
    stage.load_model(info(1, 48_000));
    stage.load_model(info(2, 48_000));
    assert_eq!(stage.handover.retired.as_ref().unwrap().slot.handle, 1);
    let Command::Load(resource) = Command::load_nam(info(3, 48_000), &here) else {
        panic!("a load");
    };
    let mut offer = Some(resource);
    stage.accept_resource(&mut offer);
    match &offer {
        Some(Resource::Nam(slot, _)) => assert_eq!(slot.handle, 3),
        _ => panic!("still on offer"),
    }
    stage.unload();
    assert_eq!(stage.handover.slots[1].as_ref().unwrap().handle, 2);
    // An offer for the other stage is not this one's to take.
    let ir = IrInfo { handle: 9, channel_count: 1, len_samples: 4 };
    let Command::Load(resource) = Command::load_ir(ir, &here) else {
        panic!("a load");
    };
    let mut offer = Some(resource);
    stage.accept_resource(&mut offer);
    assert!(matches!(offer, Some(Resource::Ir(..))));
}

#[test]
fn a_full_return_ring_leaves_the_pen_as_it_is() {
    let mut stage = nam_stage(48_000, ChannelConfig::Mono);
    stage.load_model(info(1, 48_000));
    stage.load_model(info(2, 48_000));
    let (producer, mut consumer) = rtrb::RingBuffer::<Resource>::new(1);
    let mut producer = RingProducer::new(producer);
    let mut sink = RetireSink::new(&mut producer);
    stage.collect_retired(&mut sink);
    assert_eq!(sink.rejected(), 0);
    assert!(stage.handover.retired.is_none());
    stage.load_model(info(3, 48_000));
    stage.collect_retired(&mut sink);
    assert_eq!(sink.rejected(), 1);
    assert_eq!(stage.handover.retired.as_ref().unwrap().slot.handle, 2);
    match consumer.pop() {
        Ok(Resource::Nam(slot, c)) => {
            assert_eq!(slot.handle, 1);
            assert_eq!(c, ctx(48_000, ChannelConfig::Mono));
        }
        _ => panic!("the first one out"),
    }
    stage.collect_retired(&mut sink);
    assert!(stage.handover.retired.is_none());
    assert!(matches!(consumer.pop(), Ok(Resource::Nam(slot, _)) if slot.handle == 2));
    assert!(consumer.pop().is_err());
}

#[test]
fn unloading_is_for_the_stage_of_that_kind() {
    let mut stage = nam_stage(48_000, ChannelConfig::Mono);
    stage.load_model(info(1, 48_000));
    stage.unload_resource(ResourceKind::Ir);
    assert_eq!(stage.handover.slots[1].as_ref().unwrap().handle, 1);
    stage.unload_resource(ResourceKind::Nam);
    assert!(stage.handover.slots[1].is_none());
    assert_eq!(stage.handover.retired.as_ref().unwrap().slot.handle, 1);
    assert_eq!(number(stage.mix_target), 0.0);
}

#[test]
fn a_reset_leaves_only_priming_silence_in_the_queues() {
    let shell = Shell::new(48_000);
    let mut stage = Stage::Nam(nam_stage(48_000, ChannelConfig::Mono));
    nam(&mut stage).load_model(shell.tiny_model(1, 44_100));
    run_constant(&mut stage, &shell, 2_048, 0.5);
    let cleared = nam(&mut stage).reset();
    assert_eq!(cleared, [BlockOp::ResampledModel { handle: 1, channel: 0 }]);
    let slot = nam(&mut stage).handover.slots[1].as_ref().unwrap();
    let queues = slot.resample[0].as_ref().unwrap();
    assert!(queues.engine_in_fifo.is_empty());
    assert_eq!(queues.engine_out_fifo.len(), 320);
    assert!(queues.engine_out_fifo.iter().all(|s| s.bits == 0));
    assert_eq!(nam(&mut stage).tail_samples(), 0);
}

#[test]
fn a_reset_clears_histories_and_leaves_ramps_alone() {
    let shell = Shell::new(48_000);
    let gate = gate_stage(&shell, ChannelConfig::Stereo);
    assert_eq!(gate.reset(), [BlockOp::Gate { channel: 0 }, BlockOp::Gate { channel: 1 }]);
    assert_eq!(
        trim_stage(ChannelConfig::Mono).reset(),
        [BlockOp::DcBlock { channel: 0 }, BlockOp::TrimMeter { channel: 0 }]
    );
    assert_eq!(
        ir_stage(48_000, ChannelConfig::Stereo).reset(),
        [
            BlockOp::LowCut { channel: 0 },
            BlockOp::LowCut { channel: 1 },
            BlockOp::HighCut { channel: 0 },
            BlockOp::HighCut { channel: 1 },
        ]
    );
    assert!(nam_stage(48_000, ChannelConfig::Stereo).reset().is_empty());
}

#[test]
fn the_model_stage_reports_what_plays_and_whether_a_handover_runs() {
    let shell = Shell::new(48_000);
    let mut stage = Stage::Nam(nam_stage(48_000, ChannelConfig::Mono));
    let loaded = ParamId::from_key("telemetry.nam.loaded").value;
    let active = ParamId::from_key("telemetry.nam.handover_active").value;
    let read = |stage: &mut Stage| {
        let mut out = Vec::new();
        nam(stage).telemetry(&mut out);
        out.iter().map(|e| (e.id, number(e.value))).collect::<Vec<_>>()
    };
    assert_eq!(read(&mut stage), [(loaded, 0.0), (active, 0.0)]);
    nam(&mut stage).load_model(shell.tiny_model(1, 48_000));
    assert_eq!(read(&mut stage), [(loaded, 0.0), (active, 1.0)]);
    run_constant(&mut stage, &shell, 959, 0.1);
    assert_eq!(read(&mut stage), [(loaded, 0.0), (active, 1.0)]);
    run_constant(&mut stage, &shell, 1, 0.1);
    assert_eq!(read(&mut stage), [(loaded, 1.0), (active, 0.0)]);
}

#[test]
fn a_commands_kind_says_what_it_carries() {
    let here = ctx(48_000, ChannelConfig::Stereo);
    let ir = IrInfo { handle: 2, channel_count: 2, len_samples: 3 };
    assert_eq!(Command::Param(change("nam.enabled", 1.0)).kind(), CommandKind::Param);
    assert_eq!(Command::load_nam(info(1, 48_000), &here).kind(), CommandKind::LoadNam);
    assert_eq!(Command::load_ir(ir, &here).kind(), CommandKind::LoadIr);
    assert_eq!(Command::Unload(ResourceKind::Nam).kind(), CommandKind::UnloadNam);
    assert_eq!(Command::Unload(ResourceKind::Ir).kind(), CommandKind::UnloadIr);
    assert_eq!(Command::Reset.kind(), CommandKind::Reset);
}

// ---------------------------------------------------------------------------------------------
// The impulse response stage.

#[test]
fn ir_nothing_loaded_is_exact_passthrough() {
    let shell = Shell::new(48_000);
    let mut stage = Stage::Ir(ir_stage(48_000, ChannelConfig::Mono));
    let out = run_constant(&mut stage, &shell, 48_000, 0.37);
    let tail = *out.last().unwrap();
    assert!((tail - 0.37).abs() < 1e-6, "{tail}");
}

#[test]
fn a_prepared_stage_starts_settled_at_the_level_default() {
    let stage = ir_stage(48_000, ChannelConfig::Stereo);
    assert_eq!(number(stage.level_db), 0.0);
    assert_eq!(stage.low_cut_target(), CutTarget::Identity);
    assert_eq!(stage.high_cut_target(), CutTarget::Identity);
}

#[test]
fn loaded_ir_matches_direct_convolution_once_settled() {
    let shell = Shell::new(48_000);
    let mut stage = Stage::Ir(ir_stage(48_000, ChannelConfig::Mono));
    let h = [0.6f32, -0.2, 0.1, 0.05, -0.03];
    ir(&mut stage).load_ir(shell.impulse_response(1, &[&h]));
    let input = sine_signal(48_000);
    let out = run(&mut stage, &shell, &input);
    let reference = direct_convolve(&h, &input);
    for i in 19_200..48_000 {
        assert!((out[i] - reference[i]).abs() < 1e-4, "sample {i}");
    }
}

#[test]
fn ir_a_first_load_engages_the_bypass_blend_for_the_whole_fade() {
    let shell = Shell::new(48_000);
    let mut stage = Stage::Ir(ir_stage(48_000, ChannelConfig::Mono));
    assert_eq!(number(ir(&mut stage).mix), 0.0);
    assert_eq!(number(ir(&mut stage).mix_target), 0.0);
    assert!(ir(&mut stage).wet_path_is_transparent());
    ir(&mut stage).load_ir(shell.impulse_response(1, &[&[0.6, -0.2, 0.1]]));
    assert_eq!(number(ir(&mut stage).mix_target), 1.0);
    assert_eq!(number(ir(&mut stage).mix), 1.0);
    let out = run_constant(&mut stage, &shell, 64, 0.37);
    assert_eq!(out[0].to_bits(), 0.37f32.to_bits());
    let divergence = out.iter().position(|s| s.to_bits() != 0.37f32.to_bits());
    assert_eq!(divergence, Some(1));
    assert!(ir(&mut stage).handover.crossfade.is_some());
}

#[test]
fn a_filtered_wet_path_ramps_the_bypass_blend_instead_of_snapping_it() {
    let shell = Shell::new(48_000);
    let mut stage = Stage::Ir(ir_stage(48_000, ChannelConfig::Mono));
    let update = ir(&mut stage).apply(change("ir.low_cut_freq_hz", 300.0));
    shell.take_update(update);
    let update = ir(&mut stage).apply(change("ir.low_cut_enabled", 1.0));
    shell.take_update(update);
    run_constant(&mut stage, &shell, 4_096, 0.37);
    assert!(!ir(&mut stage).wet_path_is_transparent());

    ir(&mut stage).load_ir(shell.impulse_response(1, &[&[0.6, -0.2, 0.1]]));
    assert_eq!(number(ir(&mut stage).mix_target), 1.0);
    assert_eq!(number(ir(&mut stage).mix), 0.0);

    let out = run_constant(&mut stage, &shell, 2_048, 0.37);
    let range = out.iter().fold(0.0f32, |m, &s| m.max((s - 0.37).abs())).max(1e-6);
    let one_pole_step = one_pole(BYPASS_CROSSFADE_TIME_CONSTANT_MS, 48_000);
    let equal_power_step = FRAC_PI_2 / ir(&mut stage).handover.crossfade_total_samples as f32;
    let ideal = range * (one_pole_step + equal_power_step);
    let max_delta = largest_step(0.37, &out);
    assert!(max_delta <= ideal, "{max_delta} vs {ideal}");
}

#[test]
fn ir_a_handover_deferred_by_a_full_retire_pen_finalizes_once_the_pen_clears() {
    const PAST_A_FADE: usize = 2_048;
    const MID_FADE: usize = 128;
    let shell = Shell::new(48_000);
    let mut stage = Stage::Ir(ir_stage(48_000, ChannelConfig::Mono));
    let taps: &[f32] = &[0.6, -0.2, 0.1];

    ir(&mut stage).load_ir(shell.impulse_response(1, &[taps]));
    run_constant(&mut stage, &shell, PAST_A_FADE, 0.1);
    assert_eq!(ir(&mut stage).handover.active, 1);
    assert!(ir(&mut stage).handover.crossfade.is_none());
    assert!(ir(&mut stage).handover.retired.is_none());

    ir(&mut stage).load_ir(shell.impulse_response(2, &[taps]));
    run_constant(&mut stage, &shell, MID_FADE, 0.1);
    ir(&mut stage).load_ir(shell.impulse_response(3, &[taps]));
    assert!(ir(&mut stage).handover.retired.is_some());

    run_constant(&mut stage, &shell, PAST_A_FADE, 0.1);
    let total = ir(&mut stage).handover.crossfade_total_samples;
    assert_eq!(
        ir(&mut stage).handover.crossfade,
        Some(Crossfade { remaining: 0, total, prime: 0 })
    );
    assert_eq!(ir(&mut stage).handover.active, 1);

    let (mut producer, mut consumer) = return_ring();
    {
        let mut sink = RetireSink::new(&mut producer);
        ir(&mut stage).collect_retired(&mut sink);
    }
    assert!(matches!(consumer.pop(), Ok(Resource::Ir(slot, _)) if slot.ir.handle == 2));

    run_constant(&mut stage, &shell, 64, 0.1);
    assert!(ir(&mut stage).handover.crossfade.is_none());
    assert_eq!(ir(&mut stage).handover.active, 0);
    assert!(ir(&mut stage).handover.retired.is_some());
    assert_eq!(number(ir(&mut stage).mix_target), 1.0);
}

#[test]
fn tail_samples_reports_active_irs_length() {
    let shell = Shell::new(48_000);
    let mut stage = Stage::Ir(ir_stage(48_000, ChannelConfig::Mono));
    assert_eq!(ir(&mut stage).tail_samples(), 0);
    ir(&mut stage).load_ir(shell.impulse_response(1, &[&[0.1f32; 300]]));
    run_constant(&mut stage, &shell, 48_000, 0.0);
    assert_eq!(ir(&mut stage).tail_samples(), 300);
    assert_eq!(ir(&mut stage).latency_samples(), 0);
}

#[test]
fn mono_ir_into_stereo_chain_is_dual_mono() {
    let shell = Shell::new(48_000);
    let mut stage = Stage::Ir(ir_stage(48_000, ChannelConfig::Stereo));
    ir(&mut stage).load_ir(shell.impulse_response(1, &[&[0.5, 0.0, 0.25, -0.1]]));
    let input: Vec<f32> =
        (0..48_000).map(|i| 0.2 * (((i / 64 * 64) as f32) * 0.01).sin()).collect();
    let (left, right) = run_stereo(&mut stage, &shell, &input, &input);
    for i in 19_200..48_000 {
        assert!((left[i] - right[i]).abs() < 1e-6, "sample {i}");
    }
}

#[test]
fn stereo_ir_into_stereo_chain_channels_are_independent() {
    let shell = Shell::new(48_000);
    let mut stage = Stage::Ir(ir_stage(48_000, ChannelConfig::Stereo));
    let left_h = [1.0f32, 0.0, 0.0, 0.0];
    let right_h = [0.0f32, 0.0, 1.0, 0.0];
    ir(&mut stage).load_ir(shell.impulse_response(1, &[&left_h, &right_h]));
    let input: Vec<f32> = (0..48_000).map(|i| 0.2 * ((i as f32) * 0.03).sin()).collect();
    let (left, right) = run_stereo(&mut stage, &shell, &input, &input);
    let want_left = direct_convolve(&left_h, &input);
    let want_right = direct_convolve(&right_h, &input);
    for i in 19_200..48_000 {
        assert!((left[i] - want_left[i]).abs() < 1e-4, "left: sample {i}");
        assert!((right[i] - want_right[i]).abs() < 1e-4, "right: sample {i}");
    }
    assert!((19_200..48_000).any(|i| (left[i] - right[i]).abs() > 1e-3));
}

#[test]
fn independent_mode_with_a_mono_ir_convolves_each_channels_own_signal() {
    let shell = Shell::new(48_000);
    let mut stage = Stage::Ir(ir_stage(48_000, ChannelConfig::Stereo));
    let update = ir(&mut stage).apply(change("global.independent_channels", 1.0));
    assert_eq!(update, IrUpdate::Nothing);
    let h = [0.5f32, 0.0, 0.25, -0.1];
    ir(&mut stage).load_ir(shell.impulse_response(1, &[&h]));
    let left_in: Vec<f32> = (0..48_000).map(|i| 0.2 * ((i as f32) * 0.03).sin()).collect();
    let right_in: Vec<f32> = (0..48_000).map(|i| 0.15 * ((i as f32) * 0.011).sin()).collect();
    let (left, right) = run_stereo(&mut stage, &shell, &left_in, &right_in);
    let want_left = direct_convolve(&h, &left_in);
    let want_right = direct_convolve(&h, &right_in);
    for i in 19_200..48_000 {
        assert!((left[i] - want_left[i]).abs() < 1e-4, "left: sample {i}");
        assert!((right[i] - want_right[i]).abs() < 1e-4, "right: sample {i}");
    }
    assert!(left_in.iter().zip(&right_in).any(|(l, r)| (l - r).abs() > 0.05));
}

#[test]
fn ir_handover_crossfade_has_no_large_single_sample_jump() {
    let shell = Shell::new(48_000);
    let mut stage = Stage::Ir(ir_stage(48_000, ChannelConfig::Mono));
    ir(&mut stage).load_ir(shell.impulse_response(1, &[&[0.4, 0.1, -0.2]]));
    let settled = run_constant(&mut stage, &shell, 48_000, 0.1);
    ir(&mut stage).load_ir(shell.impulse_response(2, &[&[-0.3, 0.2, 0.15]]));
    let out = run_constant(&mut stage, &shell, 4_800, 0.1);
    let jump = largest_step(*settled.last().unwrap(), &out);
    assert!(jump < 0.5, "{jump}");
}

#[test]
fn ir_bypass_toggle_mid_signal_is_click_free() {
    let shell = Shell::new(48_000);
    let mut stage = Stage::Ir(ir_stage(48_000, ChannelConfig::Mono));
    ir(&mut stage).load_ir(shell.impulse_response(1, &[&[0.9, 0.7, 0.5, 0.3]]));
    let value = 0.2f32;
    let settled_wet = *run_constant(&mut stage, &shell, 48_000, value).last().unwrap();
    let range = (settled_wet - value).abs();
    assert!(range > 1e-3);
    ir(&mut stage).apply(change("ir.enabled", 0.0));
    let out = run_constant(&mut stage, &shell, 9_600, value);
    let max_delta = largest_step(settled_wet, &out);
    let ideal = range * one_pole(BYPASS_CROSSFADE_TIME_CONSTANT_MS, 48_000);
    assert!(max_delta <= ideal * 1.01, "{max_delta} vs {ideal}");
    assert!(max_delta > 0.0);
    let tail = *out.last().unwrap();
    assert!((tail - value).abs() < 1e-3, "{tail}");
}

#[test]
fn disabled_stage_is_passthrough_even_with_an_ir_loaded() {
    let shell = Shell::new(48_000);
    let mut stage = Stage::Ir(ir_stage(48_000, ChannelConfig::Mono));
    ir(&mut stage).apply(change("ir.enabled", 0.0));
    ir(&mut stage).load_ir(shell.impulse_response(1, &[&[0.9, 0.3, -0.1]]));
    let out = run_constant(&mut stage, &shell, 48_000, 0.42);
    let tail = *out.last().unwrap();
    assert!((tail - 0.42).abs() < 1e-4, "{tail}");
}

/// A stage that plays a single tap, fully wet.
fn identity_stage(shell: &Shell) -> Stage {
    let mut stage = Stage::Ir(ir_stage(48_000, ChannelConfig::Mono));
    ir(&mut stage).load_ir(shell.impulse_response(1, &[&[1.0]]));
    run_constant(&mut stage, shell, 48_000, 0.0);
    stage
}

fn tell(stage: &mut Stage, shell: &Shell, key: &str, value: f32) {
    let update = ir(stage).apply(change(key, value));
    shell.take_update(update);
}

fn alternating_tail(stage: &mut Stage, shell: &Shell, total: usize, value: f32) -> (f32, f32) {
    let input: Vec<f32> = (0..total).map(|n| if n % 2 == 0 { value } else { -value }).collect();
    let out = run(stage, shell, &input);
    (out[total - 1], input[total - 1])
}

fn measure_magnitude_db(stage: &mut Stage, shell: &Shell, probe_hz: f64) -> f64 {
    const WARMUP: usize = 4_800;
    const WINDOW: usize = 24_000;
    let wave = |n: usize| std::f64::consts::TAU * probe_hz * n as f64 / 48_000.0;
    let input: Vec<f32> =
        (0..WARMUP + WINDOW).map(|n| (0.2 * wave(n).sin()) as f32).collect();
    let out = run(stage, shell, &input);
    let (mut re, mut im) = (0.0f64, 0.0f64);
    for (n, &s) in out[WARMUP..].iter().enumerate() {
        re += f64::from(s) * wave(n).cos();
        im += f64::from(s) * wave(n).sin();
    }
    let amplitude = 2.0 * (re * re + im * im).sqrt() / WINDOW as f64;
    20.0 * (amplitude / f64::from(0.2f32)).log10()
}

#[test]
fn each_cut_corner_lands_where_the_parameter_puts_it() {
    const MINUS_THREE_DB: f64 = -3.010_299_956_639_812;
    for corner in [20.0f64, 80.0, 240.0, 500.0] {
        let shell = Shell::new(48_000);
        let mut stage = identity_stage(&shell);
        tell(&mut stage, &shell, "ir.low_cut_enabled", 1.0);
        tell(&mut stage, &shell, "ir.low_cut_freq_hz", corner as f32);
        let at = measure_magnitude_db(&mut stage, &shell, corner);
        assert!((at - MINUS_THREE_DB).abs() < 0.1, "low cut at {corner} Hz: {at}");
        let below = measure_magnitude_db(&mut stage, &shell, corner / 2.0);
        let above = measure_magnitude_db(&mut stage, &shell, corner * 2.0);
        assert!(below < at - 3.0 && above > at + 1.0, "{corner}: {below} {at} {above}");
    }
    for corner in [1_000.0f64, 8_000.0, 20_000.0] {
        let shell = Shell::new(48_000);
        let mut stage = identity_stage(&shell);
        tell(&mut stage, &shell, "ir.high_cut_enabled", 1.0);
        tell(&mut stage, &shell, "ir.high_cut_freq_hz", corner as f32);
        let at = measure_magnitude_db(&mut stage, &shell, corner);
        assert!((at - MINUS_THREE_DB).abs() < 0.1, "high cut at {corner} Hz: {at}");
        let below = measure_magnitude_db(&mut stage, &shell, corner / 2.0);
        assert!(below > at + 1.0, "{corner}: {below} {at}");
        if corner * 2.0 <= 20_000.0 {
            let above = measure_magnitude_db(&mut stage, &shell, corner * 2.0);
            assert!(above < at - 3.0, "{corner}: {at} {above}");
        }
    }
}

#[test]
fn level_spans_its_whole_tabulated_range() {
    for level_db in [-24.0f32, -12.0, 0.0, 12.0, 24.0] {
        let shell = Shell::new(48_000);
        let mut stage = identity_stage(&shell);
        tell(&mut stage, &shell, "ir.level_db", level_db);
        let dc = 0.03f32;
        let tail = *run_constant(&mut stage, &shell, 48_000, dc).last().unwrap();
        let measured = linear_to_db(tail / dc);
        assert!((measured - level_db).abs() < 0.1, "{level_db}: {measured}");
    }
}

#[test]
fn low_cut_enabled_blocks_dc_and_passes_near_nyquist() {
    let shell = Shell::new(48_000);
    let mut stage = identity_stage(&shell);
    tell(&mut stage, &shell, "ir.low_cut_enabled", 1.0);
    let dc = 0.2f32;
    let tail = *run_constant(&mut stage, &shell, 48_000, dc).last().unwrap();
    assert!((tail / dc).abs() < 1e-2, "{tail}");
    let (out, input) = alternating_tail(&mut stage, &shell, 4_800, dc);
    assert!(linear_to_db((out / input).abs()).abs() < 0.3, "{out} {input}");
}

#[test]
fn high_cut_enabled_passes_dc_and_blocks_near_nyquist() {
    let shell = Shell::new(48_000);
    let mut stage = identity_stage(&shell);
    tell(&mut stage, &shell, "ir.high_cut_enabled", 1.0);
    let dc = 0.2f32;
    let tail = *run_constant(&mut stage, &shell, 48_000, dc).last().unwrap();
    assert!(linear_to_db(tail / dc).abs() < 0.3, "{tail}");
    let (out, input) = alternating_tail(&mut stage, &shell, 4_800, dc);
    assert!((out / input).abs() < 1e-2, "{out} {input}");
}

#[test]
fn level_db_is_applied_once_settled() {
    let shell = Shell::new(48_000);
    let mut stage = identity_stage(&shell);
    tell(&mut stage, &shell, "ir.level_db", -6.0);
    let dc = 0.3f32;
    let tail = *run_constant(&mut stage, &shell, 48_000, dc).last().unwrap();
    let expected = dc * db_to_linear(-6.0);
    assert!((tail - expected).abs() < 1e-3, "{tail} vs {expected}");
}

#[test]
fn a_cut_that_is_off_takes_its_frequency_without_a_sound() {
    let mut stage = ir_stage(48_000, ChannelConfig::Mono);
    let update = stage.apply(change("ir.high_cut_freq_hz", 5_000.0));
    assert!(matches!(update, IrUpdate::HighCut { target: CutTarget::Identity, .. }));
    assert_eq!(stage.high_cut_target(), CutTarget::Identity);
    let update = stage.apply(change("ir.high_cut_enabled", 1.0));
    let want = CutTarget::LowPass { freq_hz: single(5_000.0) };
    assert!(matches!(update, IrUpdate::HighCut { target, .. } if target == want));
    assert!(!stage.wet_path_is_transparent());
    assert_eq!(stage.apply(change("nam.enabled", 0.0)), IrUpdate::Nothing);
}

// ---------------------------------------------------------------------------------------------
// The noise gate.

fn told_gate(stage: &mut Stage, shell: &Shell, key: &str, value: f32) {
    let Stage::Gate(gate) = stage else {
        unreachable!();
    };
    let params = gate.apply(change(key, value));
    shell.take_gate(params);
}

fn reduction(stage: &Stage, shell: &Shell) -> f32 {
    let Stage::Gate(gate) = stage else {
        unreachable!();
    };
    let mut out: Vec<TelemetryEntry> = Vec::new();
    let gain = shell.inner.borrow().gates[0].gain;
    gate.telemetry(single(linear_to_db(gain.max(1e-6))), &mut out);
    let id = ParamId::from_key("telemetry.gate.gain_reduction_db").value;
    number(out.iter().find(|e| e.id == id).expect("a reading").value)
}

#[test]
fn burst_opens_and_silence_closes_through_the_stage() {
    let shell = Shell::new(48_000);
    let mut stage = Stage::Gate(gate_stage(&shell, ChannelConfig::Mono));
    let loud = db_to_linear(-10.0);
    let tail = *run_constant(&mut stage, &shell, 48_000, loud).last().unwrap();
    assert!((tail - loud).abs() < 1e-3, "{tail}");
    assert!(reduction(&stage, &shell) > -0.1);
    let tail = *run_constant(&mut stage, &shell, 48_000, 0.0).last().unwrap();
    assert!(tail.abs() < 1e-4, "{tail}");
    assert!(reduction(&stage, &shell) < -60.0);
}

#[test]
fn threshold_apply_actually_changes_detector_behaviour() {
    let signal = db_to_linear(-50.0);
    let shell = Shell::new(48_000);
    let mut stage = Stage::Gate(gate_stage(&shell, ChannelConfig::Mono));
    let tail = *run_constant(&mut stage, &shell, 48_000, signal).last().unwrap();
    assert!((tail - signal).abs() < 1e-3, "{tail}");

    let shell = Shell::new(48_000);
    let mut stage = Stage::Gate(gate_stage(&shell, ChannelConfig::Mono));
    told_gate(&mut stage, &shell, "gate.threshold_db", -20.0);
    let tail = *run_constant(&mut stage, &shell, 48_000, signal).last().unwrap();
    assert!(tail.abs() < 1e-4, "{tail}");
}

#[test]
fn hold_apply_actually_changes_detector_behaviour() {
    let loud = db_to_linear(-10.0);
    let gap = |changes: &[(&str, f32)]| {
        let shell = Shell::new(48_000);
        let mut stage = Stage::Gate(gate_stage(&shell, ChannelConfig::Mono));
        for (key, value) in changes {
            told_gate(&mut stage, &shell, key, *value);
        }
        run_constant(&mut stage, &shell, 4_800, loud);
        run_constant(&mut stage, &shell, 480, 0.0);
        reduction(&stage, &shell)
    };
    let held = gap(&[]);
    assert!(held > -1.0, "{held}");
    let released = gap(&[("gate.hold_ms", 0.0), ("gate.release_ms", 1.0)]);
    assert!(released < held - 1.0, "{released} vs {held}");
}

#[test]
fn bypass_toggle_mid_signal_is_no_worse_than_a_15ms_linear_ramp() {
    let shell = Shell::new(48_000);
    let mut stage = Stage::Gate(gate_stage(&shell, ChannelConfig::Mono));
    told_gate(&mut stage, &shell, "gate.threshold_db", 0.0);
    let dry = 0.5f32;
    told_gate(&mut stage, &shell, "gate.enabled", 0.0);
    let settled = *run_constant(&mut stage, &shell, 48_000, dry).last().unwrap();
    told_gate(&mut stage, &shell, "gate.enabled", 1.0);
    let out = run_constant(&mut stage, &shell, 4_800, dry);
    let max_delta = largest_step(settled, &out);
    let ideal = dry / (0.015 * 48_000.0);
    assert!(max_delta <= ideal * 1.01, "{max_delta} vs {ideal}");
    assert!(max_delta > 0.0);
}

#[test]
fn every_multi_channel_configuration_duplicates_the_mono_core_gate_result() {
    let loud = db_to_linear(-10.0);
    let other = db_to_linear(-4.0);
    for config in [ChannelConfig::Stereo, ChannelConfig::MonoToStereo] {
        assert_eq!(config.output_channels(), 2);
        let shell = Shell::new(48_000);
        let mut stage = Stage::Gate(gate_stage(&shell, config));
        let (left, right) =
            run_stereo(&mut stage, &shell, &vec![loud; 51_264], &vec![other; 51_264]);
        for i in 51_200..51_264 {
            assert!((left[i] - right[i]).abs() < 1e-6, "{config:?}: {} {}", left[i], right[i]);
            assert!((left[i] - loud).abs() < 1e-4, "{config:?}: {}", left[i]);
        }
        assert!(left[51_200..].iter().any(|s| s.abs() > 1e-3));
    }
}

#[test]
fn independent_mode_gates_each_channel_on_its_own_signal() {
    let shell = Shell::new(48_000);
    let mut stage = Stage::Gate(gate_stage(&shell, ChannelConfig::Stereo));
    told_gate(&mut stage, &shell, "global.independent_channels", 1.0);
    let loud = db_to_linear(-10.0);
    run_stereo(&mut stage, &shell, &vec![loud; 51_200], &vec![0.0; 51_200]);
    let (left, right) = run_stereo(&mut stage, &shell, &[loud; 64], &[0.0; 64]);
    assert!(left.iter().all(|s| (s - loud).abs() < 1e-3));
    assert!(right.iter().all(|s| s.abs() < 1e-6));
    let (_, right) = run_stereo(&mut stage, &shell, &[loud; 64], &[loud; 64]);
    assert!(right[0].abs() < 1e-3, "{}", right[0]);
    assert!((right[63] - loud).abs() < 1e-3, "{}", right[63]);
}

#[test]
fn a_gate_hands_its_detectors_all_four_figures_at_once() {
    let shell = Shell::new(48_000);
    let mut gate = gate_stage(&shell, ChannelConfig::Mono);
    let before = gate.params;
    let params = gate.apply(change("gate.attack_ms", 2.0)).expect("a change of figures");
    assert_eq!(params, GateParams { attack_ms: single(2.0), ..before });
    assert_eq!(gate.apply(change("gate.enabled", 0.0)), None);
    assert!(!gate.enabled);
    assert_eq!(number(gate.mix_target), 0.0);
    assert_eq!(gate.apply(change("out.gain_db", 1.0)), None);
    assert_eq!((gate.latency_samples(), gate.tail_samples()), (0, 0));
}

// ---------------------------------------------------------------------------------------------
// The input trim.

fn told_trim(stage: &mut Stage, shell: &Shell, key: &str, value: f32) {
    let Stage::Trim(trim) = stage else {
        unreachable!();
    };
    let target = trim.apply(change(key, value));
    shell.take_gain(target);
}

fn plain_trim(shell: &Shell, config: ChannelConfig) -> Stage {
    let mut stage = Stage::Trim(trim_stage(config));
    told_trim(&mut stage, shell, "trim.dc_blocker_enabled", 0.0);
    stage
}

#[test]
fn a_prepared_stage_starts_settled_at_the_gain_default() {
    let stage = trim_stage(ChannelConfig::Mono);
    assert_eq!(number(stage.gain_db), 0.0);
    assert!(stage.dc_blocker_enabled);
    assert!(!stage.independent);
}

#[test]
fn pure_gain_is_applied_once_settled() {
    let shell = Shell::new(48_000);
    let mut stage = Stage::Trim(trim_stage(ChannelConfig::Mono));
    told_trim(&mut stage, &shell, "trim.gain_db", -6.0);
    told_trim(&mut stage, &shell, "trim.dc_blocker_enabled", 0.0);
    run_constant(&mut stage, &shell, 200 * 64, 1.0);
    let expected = 0.5 * db_to_linear(-6.0);
    for s in run_constant(&mut stage, &shell, 64, 0.5) {
        assert!((s - expected).abs() < 1e-3, "{s} vs {expected}");
    }
}

#[test]
fn dc_blocker_enabled_removes_dc_disabled_passes_it() {
    let shell = Shell::new(48_000);
    let mut enabled = Stage::Trim(trim_stage(ChannelConfig::Mono));
    let tail = *run_constant(&mut enabled, &shell, 48_000, 1.0).last().unwrap();
    assert!(tail.abs() < 1e-2, "{tail}");
    let shell = Shell::new(48_000);
    let mut disabled = plain_trim(&shell, ChannelConfig::Mono);
    let tail = *run_constant(&mut disabled, &shell, 6_400, 1.0).last().unwrap();
    assert!(tail > 0.99, "{tail}");
}

#[test]
fn stereo_downmix_sums_both_channels_at_minus_six_db_identically() {
    let shell = Shell::new(48_000);
    let mut stage = plain_trim(&shell, ChannelConfig::Stereo);
    let (left, right) = run_stereo(&mut stage, &shell, &[0.2; 64], &[0.8; 64]);
    let g = db_to_linear(DOWNMIX_EACH_TERM_DB);
    let expected = 0.2 * g + 0.8 * g;
    assert!(left.iter().chain(&right).all(|s| (s - expected).abs() < 1e-4));
}

#[test]
fn mono_to_stereo_duplicated_input_downmixes_identically_on_both_channels() {
    let shell = Shell::new(48_000);
    let mut stage = plain_trim(&shell, ChannelConfig::MonoToStereo);
    let (left, right) = run_stereo(&mut stage, &shell, &[0.3; 64], &[0.3; 64]);
    let expected = 0.3 * db_to_linear(DOWNMIX_EACH_TERM_DB) * 2.0;
    assert!(left.iter().all(|s| (s - expected).abs() < 1e-4));
    assert!(left.iter().zip(&right).all(|(l, r)| (l - r).abs() < 1e-6));
}

#[test]
fn mono_passthrough_skips_downmix_entirely() {
    let shell = Shell::new(48_000);
    let mut stage = plain_trim(&shell, ChannelConfig::Mono);
    for s in run_constant(&mut stage, &shell, 64, 0.4) {
        assert!((s - 0.4).abs() < 1e-4, "{s}");
    }
}

#[test]
fn clip_latches_and_is_reported_via_telemetry() {
    let shell = Shell::new(48_000);
    let mut stage = Stage::Trim(trim_stage(ChannelConfig::Mono));
    let clipped = |stage: &Stage| {
        let Stage::Trim(trim) = stage else {
            unreachable!();
        };
        let reading = TrimReading {
            peak_db: single(-1.0),
            average_db: single(-2.0),
            peak_hold_db: single(-3.0),
            clipped: shell.inner.borrow().clipped[0],
        };
        let mut out = Vec::new();
        trim.telemetry(reading, &mut out);
        assert_eq!(out.len(), 4);
        let value = |key: &str| {
            let id = ParamId::from_key(key).value;
            number(out.iter().find(|e| e.id == id).expect("a reading").value)
        };
        assert_eq!(value("telemetry.trim.peak_db"), -1.0);
        assert_eq!(value("telemetry.trim.average_db"), -2.0);
        assert_eq!(value("telemetry.trim.peak_hold_db"), -3.0);
        value("telemetry.trim.clipped")
    };
    assert_eq!(clipped(&stage), 0.0);
    run_constant(&mut stage, &shell, 64, 1.5);
    assert_eq!(clipped(&stage), 1.0);
    run_constant(&mut stage, &shell, 64, 0.1);
    assert_eq!(clipped(&stage), 1.0);
}

#[test]
fn independent_mode_skips_the_downmix_and_keeps_channels_separate() {
    let shell = Shell::new(48_000);
    let mut stage = plain_trim(&shell, ChannelConfig::Stereo);
    told_trim(&mut stage, &shell, "global.independent_channels", 1.0);
    let (left, right) = run_stereo(&mut stage, &shell, &[0.2; 64], &[0.8; 64]);
    assert!(left.iter().all(|s| (s - 0.2).abs() < 1e-4));
    assert!(right.iter().all(|s| (s - 0.8).abs() < 1e-4));
    let metered = shell.inner.borrow().metered.clone();
    assert_eq!(metered.len(), 2);
    assert_eq!((metered[0].0, metered[1].0), (0, 1));
    assert!((metered[1].1 - 0.8).abs() < 1e-4);
}

#[test]
fn the_meter_hears_the_signal_after_the_trim() {
    let shell = Shell::new(48_000);
    let mut stage = plain_trim(&shell, ChannelConfig::Stereo);
    told_trim(&mut stage, &shell, "trim.gain_db", -24.0);
    run_stereo(&mut stage, &shell, &[1.0; 48_000], &[1.0; 48_000]);
    let (channel, peak) = *shell.inner.borrow().metered.last().unwrap();
    assert_eq!(channel, 0);
    let expected = 2.0 * db_to_linear(-30.0);
    assert!((peak - expected).abs() < 1e-3, "{peak} vs {expected}");
}

#[test]
fn a_trim_that_becomes_independent_starts_settled() {
    let shell = Shell::new(48_000);
    let mut stage = plain_trim(&shell, ChannelConfig::Stereo);
    told_trim(&mut stage, &shell, "trim.gain_db", -6.0);
    run_stereo(&mut stage, &shell, &vec![0.5; 12_800], &vec![0.5; 12_800]);
    told_trim(&mut stage, &shell, "global.independent_channels", 1.0);
    let (left, right) = run_stereo(&mut stage, &shell, &[0.5; 64], &[0.5; 64]);
    let expected = 0.5 * db_to_linear(-6.0);
    for s in left.iter().chain(&right) {
        assert!((s - expected).abs() < 1e-3, "{s} is not {expected}");
    }
}

#[test]
fn a_gate_that_becomes_independent_starts_settled() {
    let shell = Shell::new(48_000);
    let mut stage = Stage::Gate(gate_stage(&shell, ChannelConfig::Stereo));
    let loud = db_to_linear(-10.0);
    let (_, right) = run_stereo(&mut stage, &shell, &vec![loud; 51_200], &vec![loud; 51_200]);
    assert!((right[51_199] - loud).abs() < 1e-3);
    told_gate(&mut stage, &shell, "global.independent_channels", 1.0);
    let (left, right) = run_stereo(&mut stage, &shell, &[loud; 64], &[loud; 64]);
    for s in left.iter().chain(&right) {
        assert!((s - loud).abs() < 1e-3, "{s} is not {loud}");
    }
}

#[test]
fn a_loaded_model_is_sized_for_the_chain() {
    let here = ctx(48_000, ChannelConfig::Stereo);
    let Command::Load(Resource::Nam(slot, built_for)) = Command::load_nam(info(1, 48_000), &here)
    else {
        panic!("a model");
    };
    assert_eq!(built_for, here);
    assert_eq!((slot.state_block, slot.resample.len()), (64, 2));
    assert!(slot.resample.iter().all(|r| r.is_none()));
    let Command::Load(Resource::Nam(slot, _)) = Command::load_nam(info(1, 44_100), &here) else {
        panic!("a model");
    };
    let queues = slot.resample[1].as_ref().expect("a rate of its own");
    assert_eq!((queues.engine_block, queues.model_block), (320, 294));
    assert_eq!(slot.state_block, 294);
}

#[test]
fn a_fresh_stage_plays_from_its_first_place() {
    assert_eq!(nam_stage(48_000, ChannelConfig::Stereo).handover.active, 0);
    assert_eq!(ir_stage(48_000, ChannelConfig::Stereo).handover.active, 0);
    let mut nam = nam_stage(48_000, ChannelConfig::Stereo);
    nam.unload();
    let fade = Crossfade { remaining: 960, total: 960, prime: 0 };
    assert_eq!((nam.handover.active, nam.handover.crossfade), (0, Some(fade)));
}

/// What runs for one more block of silence on two channels.
fn one_block(stage: &mut Stage, shell: &Shell) -> Vec<Ran> {
    shell.ran.borrow_mut().clear();
    run_stereo(stage, shell, &[0.0; 64], &[0.0; 64]);
    shell.ran.take()
}

#[test]
fn every_processor_runs_once_a_block_and_in_order() {
    let shell = Shell::new(48_000);
    let mut gate = Stage::Gate(gate_stage(&shell, ChannelConfig::Stereo));
    let detectors = [
        Ran::Block(BlockOp::Gate { channel: 0 }),
        Ran::Block(BlockOp::Gate { channel: 1 }),
    ];
    assert_eq!(one_block(&mut gate, &shell), detectors);
    told_gate(&mut gate, &shell, "global.independent_channels", 1.0);
    assert_eq!(one_block(&mut gate, &shell), detectors);

    let mut trim = plain_trim(&shell, ChannelConfig::Stereo);
    assert_eq!(
        one_block(&mut trim, &shell),
        [
            Ran::Block(BlockOp::TrimGain { channel: 0 }),
            Ran::Block(BlockOp::TrimMeter { channel: 0 }),
            Ran::Block(BlockOp::TrimGain { channel: 1 }),
        ]
    );
    told_trim(&mut trim, &shell, "global.independent_channels", 1.0);
    told_trim(&mut trim, &shell, "trim.dc_blocker_enabled", 1.0);
    assert_eq!(
        one_block(&mut trim, &shell),
        [
            Ran::Block(BlockOp::TrimGain { channel: 0 }),
            Ran::Block(BlockOp::DcBlock { channel: 0 }),
            Ran::Block(BlockOp::TrimMeter { channel: 0 }),
            Ran::Block(BlockOp::TrimGain { channel: 1 }),
            Ran::Block(BlockOp::DcBlock { channel: 1 }),
            Ran::Block(BlockOp::TrimMeter { channel: 1 }),
        ]
    );
}

#[test]
fn a_model_and_its_ramp_run_once_on_each_side_of_a_fade() {
    let shell = Shell::new(48_000);
    let mut stage = Stage::Nam(nam_stage(48_000, ChannelConfig::Stereo));
    assert!(one_block(&mut stage, &shell).is_empty());
    let (one, two) = (shell.tiny_model(1, 48_000), shell.tiny_model(2, 48_000));
    nam(&mut stage).load_model(one);
    let zero = single(0.0);
    let side = |handle: u64| {
        [
            Ran::Block(BlockOp::Model { handle, channel: 0 }),
            Ran::Block(BlockOp::NormalizeGain { handle, channel: 0, target_db: zero }),
        ]
    };
    let mut told = |stage: &mut Stage| {
        nam(stage).apply(change("nam.normalize_enabled", 0.0));
    };
    told(&mut stage);
    assert_eq!(one_block(&mut stage, &shell), side(1));
    run_stereo(&mut stage, &shell, &vec![0.0; 1_024], &vec![0.0; 1_024]);
    assert_eq!(one_block(&mut stage, &shell), side(1));
    let (mut producer, _consumer) = return_ring();
    nam(&mut stage).collect_retired(&mut RetireSink::new(&mut producer));
    nam(&mut stage).load_model(two);
    assert_eq!(one_block(&mut stage, &shell), [side(1), side(2)].concat());
}

#[test]
fn an_impulse_response_is_convolved_once_for_linked_channels_and_once_for_each_independent_one() {
    let shell = Shell::new(48_000);
    let mut stage = Stage::Ir(ir_stage(48_000, ChannelConfig::Stereo));
    let shape = |channel: usize| {
        [
            Ran::Block(BlockOp::LowCut { channel }),
            Ran::Block(BlockOp::HighCut { channel }),
            Ran::Block(BlockOp::Level { channel }),
        ]
    };
    let both: Vec<Ran> = [shape(0), shape(1)].concat();
    assert_eq!(one_block(&mut stage, &shell), both);
    let info = shell.impulse_response(1, &[&[1.0, 0.5]]);
    ir(&mut stage).load_ir(info);
    run_stereo(&mut stage, &shell, &vec![0.0; 1_024], &vec![0.0; 1_024]);
    let first = Ran::Convolved(Convolve { handle: 1, channel: 0 });
    let second = Ran::Convolved(Convolve { handle: 1, channel: 1 });
    assert_eq!(one_block(&mut stage, &shell), [vec![first], both.clone()].concat());
    ir(&mut stage).apply(change("global.independent_channels", 1.0));
    assert_eq!(one_block(&mut stage, &shell), [vec![first, second], both].concat());
}
