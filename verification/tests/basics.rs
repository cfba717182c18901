//! Numbers by their bits, text, rings, settings and blocks of samples.

use namir::app_host::StreamFailure;
use namir::bypass::blend;
use namir::dsp::SampleOp;
use namir::prepare::{ChannelConfig, SampleRate};
use namir::ring::RingConsumer;
use namir::single::Single;
use namir::stage_io::StageIo;
use namir::state::{FileRef, ParamValues, State};
use namir::text::{
    basename, contains, decimal, same_text, shown_name, signed_decimal, starts_with, trimmed,
};

fn single(x: f32) -> Single {
    Single::from_bits(x.to_bits())
}

fn number(x: Single) -> f32 {
    f32::from_bits(x.bits)
}

const NUMBERS: [f32; 12] = [
    f32::NEG_INFINITY,
    f32::MIN,
    -1.0,
    -1e-40,
    -0.0,
    0.0,
    1e-40,
    0.5,
    1.0,
    f32::MAX,
    f32::INFINITY,
    f32::NAN,
];

#[test]
fn the_order_of_singles_is_that_of_the_numbers() {
    for a in NUMBERS {
        for b in NUMBERS {
            assert_eq!(single(a).less_than(single(b)), a < b, "{a} < {b}");
            assert_eq!(single(a).equals(single(b)), a == b, "{a} == {b}");
            let louder = number(single(a).max(single(b)));
            let want = a.max(b);
            assert!(louder == want || (louder.is_nan() && want.is_nan()), "{a} max {b}");
        }
        assert_eq!(single(a).not_a_number(), a.is_nan());
        assert_eq!(single(a).is_finite(), a.is_finite());
        assert_eq!(single(a).is_on(), a >= 0.5, "{a}");
        assert_eq!(single(a).is_zero(), a == 0.0, "{a}");
    }
}

#[test]
fn a_clamped_number_stays_in_its_range() {
    for a in [-3.0f32, -1.0, 0.25, 2.0, 5.0] {
        assert_eq!(number(single(a).clamp(single(-1.0), single(2.0))), a.clamp(-1.0, 2.0));
    }
    assert!(number(single(f32::NAN).clamp(single(-1.0), single(2.0))).is_nan());
    assert_eq!(number(Single::switch(true)), 1.0);
    assert_eq!(number(Single::switch(false)), 0.0);
    assert_eq!(number(Single::silence()), f32::NEG_INFINITY);
}

#[test]
fn numbers_are_written_out_in_decimal() {
    for n in [0u64, 7, 10, 99, 100, 12_345, u64::MAX] {
        assert_eq!(decimal(n), n.to_string());
    }
    for n in [0i64, -1, -2_147_024_882, i64::MIN, i64::MAX] {
        assert_eq!(signed_decimal(n), n.to_string());
    }
}

#[test]
fn white_space_goes_from_the_two_ends_of_a_text_only() {
    assert_eq!(trimmed("  Crunch Rhythm \n"), "Crunch Rhythm");
    assert_eq!(trimmed("\u{3000}a\u{2028}"), "a");
    assert_eq!(trimmed("\u{200b}a"), "\u{200b}a");
    assert_eq!(trimmed(" \t "), "");
}

#[test]
fn one_text_in_another() {
    assert!(starts_with("trim.gain_db", "trim."));
    assert!(!starts_with("trim", "trim."));
    assert!(starts_with("anything", ""));
    assert!(contains("dir/bad.nam is broken", "bad.nam"));
    assert!(!contains("dir/bad.nam", "good"));
    assert!(!contains("a", "ab"));
    assert!(contains("a", ""));
    assert!(same_text("abc", "abc"));
    assert!(!same_text("abc", "abd"));
}

#[test]
fn a_path_is_shown_by_its_file_name() {
    assert_eq!(basename("models/plexi.nam"), "plexi.nam");
    assert_eq!(basename("plexi.nam"), "plexi.nam");
    assert_eq!(basename("models/"), "models");
    assert_eq!(basename(".."), "..");
    assert_eq!(basename(""), "");
    assert_eq!(basename("/lib/cab.wav"), "cab.wav");
    assert_eq!(basename("/"), "/");
    assert_eq!(basename("."), ".");
    assert_eq!(basename("lib//cab.wav"), "cab.wav");
    assert_eq!(basename("lib/cab.wav/."), "cab.wav");
    assert_eq!(basename("lib/cab.wav/.//"), "cab.wav");
    assert_eq!(basename("lib/cab.wav/.."), "lib/cab.wav/..");
    assert_eq!(basename("../."), "../.");
    assert_eq!(basename("./lib/..."), "...");
    for path in ["/lib/cab.wav", "", "/", "..", "a/b/", "a/."] {
        assert_eq!(basename(&basename(path)), basename(path), "{path}");
    }
    assert_eq!(shown_name(Some("a".to_string()), "b"), "a");
    assert_eq!(shown_name(None, "b"), "b");
}

#[test]
fn a_ring_gives_out_the_oldest_first() {
    let (mut producer, consumer) = rtrb::RingBuffer::<StreamFailure>::new(2);
    let mut consumer = RingConsumer::new(consumer);
    assert!(consumer.try_pop().is_none());
    assert!(producer.push(StreamFailure::Xrun).is_ok());
    assert!(producer.push(StreamFailure::DeviceLost).is_ok());
    assert!(matches!(consumer.try_pop(), Some(StreamFailure::Xrun)));
    assert!(matches!(consumer.try_pop(), Some(StreamFailure::DeviceLost)));
    assert!(consumer.try_pop().is_none());
}

#[test]
fn values_are_read_as_they_were_stored() {
    let mut values = ParamValues::defaults();
    assert_eq!(values.get("gate.threshold_db"), Some(single(-70.0)));
    assert_eq!(values.get("gate.enabled"), Some(single(1.0)));
    assert_eq!(values.get("no.such_key"), None);
    assert!(values.set("gate.threshold_db", single(-20.0)));
    assert_eq!(values.get("gate.threshold_db"), Some(single(-20.0)));
    assert_eq!(values.get("gate.attack_ms"), Some(single(1.0)));
    assert!(!values.set("no.such_key", single(1.0)));
    assert!(!values.same(&ParamValues::defaults()));
    assert!(values.copy().same(&values));
    // The two zeros are one number.
    let mut zero = ParamValues::defaults();
    assert!(zero.set("trim.gain_db", single(-0.0)));
    assert!(zero.same(&ParamValues::defaults()));
}

#[test]
fn settings_differ_by_a_value_or_by_a_loaded_file() {
    let plain = State::defaults();
    assert!(plain.same(&plain.copy()));
    let mut other = State::defaults();
    other.nam = Some(FileRef { display_name: "plexi.nam".to_string(), identity: 1 });
    assert!(!plain.same(&other));
    assert!(other.same(&other.copy()));
    let mut third = other.copy();
    third.nam = Some(FileRef { display_name: "plexi.nam".to_string(), identity: 2 });
    assert!(!other.same(&third));
}

#[test]
fn a_rate_is_above_zero_and_a_configuration_has_its_channels() {
    assert!(SampleRate::new(0).is_none());
    assert_eq!(SampleRate::new(48_000).map(|r| r.hz), Some(48_000));
    assert_eq!(ChannelConfig::Mono.output_channels(), 1);
    assert_eq!(ChannelConfig::MonoToStereo.output_channels(), 2);
    assert_eq!(ChannelConfig::Stereo.output_channels(), 2);
}

#[test]
fn a_block_has_channels_of_one_length() {
    let a = vec![single(1.0), single(2.0)];
    let b = vec![single(3.0)];
    assert!(StageIo::new(vec![a.clone(), b.clone()], 2).is_none());
    assert!(StageIo::new(vec![b.clone()], 2).is_none());
    let mut io = StageIo::new(vec![a.clone(), a.clone()], 2).unwrap();
    io.put(0, vec![single(5.0), single(6.0)]);
    io.duplicate_first();
    assert_eq!(io.channels[1], [single(5.0), single(6.0)]);
    assert_eq!(io.capture(), io.channels);
}

/// Every channel starts its blend from the same point, and the point moves once a block.
#[test]
fn the_bypass_glides_over_every_channel_alike() {
    let dry = vec![vec![single(0.0); 4], vec![single(0.0); 4]];
    let wet = vec![vec![single(1.0); 4], vec![single(1.0); 4]];
    let mut io = StageIo::new(wet, 4).unwrap();
    let arith = |op: SampleOp| match op {
        SampleOp::Glide { mix, target } => single((number(mix) + number(target)) / 2.0),
        SampleOp::Blend { dry, wet, mix } => {
            single(number(dry) * (1.0 - number(mix)) + number(wet) * number(mix))
        }
        _ => unreachable!(),
    };
    let end = blend(&mut io, &dry, single(0.0), single(1.0), arith);
    let want: Vec<Single> = [0.5f32, 0.75, 0.875, 0.9375].iter().map(|&x| single(x)).collect();
    assert_eq!(io.channels[0], want);
    assert_eq!(io.channels[1], want);
    assert_eq!(number(end), 0.9375);
}
