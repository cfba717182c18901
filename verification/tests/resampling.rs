//! The figures of the resampler around a model, against the resampler itself.

use std::cell::RefCell;

use namir::dsp::{BlockOp, Convolve, Rack};
use namir::handover::{crossfade_total_samples, Crossfade};
use namir::prepare::SampleRate;
use namir::resample::{
    fixed_block, gcd, resample_chunk_frames, SlotResampler, MIN_RESAMPLE_FFT_FRAMES,
};
use namir::single::Single;
use rubato::{FftFixedInOut, Resampler};

const MEASURED_RATE_PAIRS: [(u32, u32); 10] = [
    (48_000, 44_100),
    (44_100, 48_000),
    (88_200, 48_000),
    (96_000, 44_100),
    (96_000, 48_000),
    (176_400, 48_000),
    (192_000, 44_100),
    (192_000, 48_000),
    (48_000, 96_000),
    (44_100, 96_000),
];

fn slot(engine_hz: u32, model_hz: u32) -> SlotResampler {
    SlotResampler::new(SampleRate::new(engine_hz).unwrap(), SampleRate::new(model_hz).unwrap())
}

#[test]
fn resample_chunk_frames_lands_exactly_on_rubatos_own_fft_size() {
    for (engine_hz, model_hz) in MEASURED_RATE_PAIRS {
        let resampler = slot(engine_hz, model_hz);
        let chunk = resample_chunk_frames(engine_hz as usize, model_hz as usize);
        assert_eq!(resampler.engine_block, chunk, "{engine_hz}/{model_hz}");
        let lower = resampler.engine_block.min(resampler.model_block);
        assert!(lower >= MIN_RESAMPLE_FFT_FRAMES, "{engine_hz}/{model_hz}: {lower}");
        let real = FftFixedInOut::<f32>::new(engine_hz as usize, model_hz as usize, chunk, 1)
            .expect("both rates are above zero");
        assert_eq!(real.input_frames_next(), resampler.engine_block, "{engine_hz}/{model_hz}");
        assert_eq!(real.output_frames_next(), resampler.model_block, "{engine_hz}/{model_hz}");
    }
}

#[test]
fn a_fixed_block_is_what_the_resampler_settles_on() {
    for (rate_in, rate_out) in MEASURED_RATE_PAIRS {
        let (rate_in, rate_out) = (rate_in as usize, rate_out as usize);
        for chunk in [1usize, 64, 147, 160, 256, 321, 1_024] {
            let figures = fixed_block(rate_in, rate_out, chunk);
            let real = FftFixedInOut::<f32>::new(rate_in, rate_out, chunk, 1)
                .expect("both rates are above zero");
            let case = format!("{rate_in} to {rate_out} in {chunk}");
            assert_eq!(figures.input_frames, real.input_frames_next(), "{case}");
            assert_eq!(figures.output_frames, real.output_frames_next(), "{case}");
            assert_eq!(figures.output_delay, real.output_delay(), "{case}");
        }
    }
}

#[test]
fn a_flat_chunk_would_leave_the_filter_too_short() {
    let flat = fixed_block(192_000, 48_000, 256);
    assert_eq!(flat.output_frames, 64);
    assert_eq!(resample_chunk_frames(192_000, 48_000), 1_024);
    // Where the engine's rate is the lower one, the two requests are the same.
    assert_eq!(resample_chunk_frames(44_100, 48_000), fixed_block(44_100, 48_000, 256).input_frames);
}

#[test]
fn the_way_back_takes_what_the_way_in_gives() {
    for (engine_hz, model_hz) in MEASURED_RATE_PAIRS {
        let (engine, model) = (engine_hz as usize, model_hz as usize);
        let into = fixed_block(engine, model, resample_chunk_frames(engine, model));
        let back = fixed_block(model, engine, into.output_frames);
        assert_eq!(back.input_frames, into.output_frames);
        assert_eq!(back.output_frames, into.input_frames);
        assert_eq!(into.input_frames * model, into.output_frames * engine);
    }
}

#[test]
fn the_latency_is_one_block_and_both_filters() {
    assert_eq!(slot(48_000, 44_100).latency_samples, 640);
    assert_eq!(slot(192_000, 44_100).latency_samples, 2_560);
    for (engine_hz, model_hz) in MEASURED_RATE_PAIRS {
        let r = slot(engine_hz, model_hz);
        let into =
            FftFixedInOut::<f32>::new(engine_hz as usize, model_hz as usize, r.engine_block, 1)
                .unwrap();
        let back =
            FftFixedInOut::<f32>::new(model_hz as usize, engine_hz as usize, r.model_block, 1)
                .unwrap();
        let first = into.output_delay() as f64 * f64::from(engine_hz) / f64::from(model_hz);
        let want = r.engine_block as f64 + first.round() + back.output_delay() as f64;
        assert_eq!(f64::from(r.latency_samples), want, "{engine_hz}/{model_hz}");
    }
}

#[test]
fn the_greatest_common_divisor_of_two_rates() {
    assert_eq!(gcd(48_000, 44_100), 300);
    assert_eq!(gcd(44_100, 48_000), 300);
    assert_eq!(gcd(96_000, 48_000), 48_000);
    assert_eq!(gcd(7, 0), 7);
    assert_eq!(gcd(0, 7), 7);
    assert_eq!(gcd(0, 0), 0);
}

/// The same samples, cut up in several ways, through a model that remembers: it adds the last
/// sample it heard to the next.
#[test]
fn it_does_not_matter_how_the_input_is_sliced() {
    let sample = |x: f32| Single::from_bits(x.to_bits());
    let input: Vec<Single> = (0..5_000u32).map(|i| sample(i as f32 * 0.25)).collect();
    let run = |sizes: &[usize]| {
        let mut rack = Rack::new(
            (0.0f32, 0usize),
            |_: BlockOp, v: Vec<Single>, (mut last, blocks): (f32, usize)| {
                assert_eq!(v.len(), 320);
                let mut out = Vec::new();
                for s in &v {
                    let x = f32::from_bits(s.bits);
                    out.push(sample(x + last));
                    last = x;
                }
                (out, (last, blocks + 1))
            },
            |_: Convolve, v: Vec<Single>, state: (f32, usize)| (v.clone(), v, state),
        );
        let mut r = slot(48_000, 44_100);
        let mut out = Vec::new();
        let (mut at, mut i) = (0usize, 0usize);
        while at < input.len() {
            let end = (at + sizes[i % sizes.len()]).min(input.len());
            let op = BlockOp::ResampledModel { handle: 1, channel: 0 };
            out.extend(r.process(&mut rack, op, &input[at..end].to_vec()));
            assert_eq!(r.engine_in_fifo.len() + r.engine_out_fifo.len(), 320);
            at = end;
            i += 1;
        }
        (out, rack.into_state())
    };
    let whole = run(&[5_000]);
    assert_eq!(whole, run(&[64]));
    assert_eq!(whole, run(&[1, 37, 512, 3]));
    assert_eq!(whole.1 .1, 15);
    // The internal block comes out one block late.
    assert!(whole.0[..320].iter().all(|s| s.bits == 0));
    for i in 1..4_480usize {
        assert_eq!(f32::from_bits(whole.0[320 + i].bits), i as f32 * 0.5 - 0.25);
    }
}

#[test]
fn a_crossfade_lasts_twenty_milliseconds() {
    assert_eq!(crossfade_total_samples(48_000), 960);
    assert_eq!(crossfade_total_samples(44_100), 882);
    assert_eq!(crossfade_total_samples(22_050), 441);
    assert_eq!(crossfade_total_samples(11_025), 221);
    assert_eq!(crossfade_total_samples(1), 1);
}

#[test]
fn a_crossfade_is_primed_then_runs_and_then_stands_still() {
    let whole = |fade: &mut Crossfade, n: usize| {
        let heard = RefCell::new(Vec::new());
        let outgoing = vec![Single::zero(); n];
        let incoming = vec![Single::one(); n];
        let arith = |op: namir::dsp::SampleOp| {
            if let namir::dsp::SampleOp::Fade { progress, total, .. } = op {
                heard.borrow_mut().push((progress, total));
            }
            Single::one()
        };
        let out = fade.fade(&outgoing, &incoming, arith);
        (out, heard.into_inner())
    };
    let mut fade = Crossfade { remaining: 4, total: 4, prime: 3 };
    let (out, heard) = whole(&mut fade, 5);
    assert_eq!(out[..3], [Single::zero(); 3]);
    assert_eq!(heard, [(0, 4), (1, 4)]);
    assert_eq!(fade, Crossfade { remaining: 2, total: 4, prime: 0 });
    let (_, heard) = whole(&mut fade, 4);
    assert_eq!(heard, [(2, 4), (3, 4), (4, 4), (4, 4)]);
    assert_eq!(fade, Crossfade { remaining: 0, total: 4, prime: 0 });
    let mut at_once = Crossfade { remaining: 4, total: 4, prime: 3 };
    whole(&mut at_once, 9);
    assert_eq!(at_once, fade);
}
