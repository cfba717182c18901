//! The parameters this build knows, one by one.

use std::collections::HashSet;

use namir::descriptor::{
    ParamDescriptor, ParamKind, SmoothingCategory, StepValues, Unit, ValueFormat,
};
use namir::param::ParamId;
use namir::registry::{position, registry};
use namir::single::Single;

/// One continuous control and the figures it must have: a range at least as wide, and just this
/// default.
struct Row {
    key: &'static str,
    min: Option<f32>,
    max: Option<f32>,
    default: Option<f32>,
}

fn row(key: &'static str, min: Option<f32>, max: Option<f32>, default: Option<f32>) -> Row {
    Row { key, min, max, default }
}

fn continuous_rows() -> Vec<Row> {
    vec![
        row("trim.gain_db", Some(-24.0), Some(24.0), Some(0.0)),
        row("gate.threshold_db", Some(-100.0), Some(0.0), Some(-70.0)),
        row("gate.attack_ms", Some(0.1), Some(50.0), Some(1.0)),
        row("gate.hold_ms", Some(0.0), Some(500.0), Some(30.0)),
        row("gate.release_ms", Some(1.0), Some(2000.0), Some(100.0)),
        row("nam.normalize_offset_db", None, None, Some(0.0)),
        row("ir.level_db", Some(-24.0), Some(24.0), Some(0.0)),
        row("ir.low_cut_freq_hz", Some(20.0), Some(500.0), None),
        row("ir.high_cut_freq_hz", Some(1_000.0), Some(20_000.0), None),
        row("eq.low_shelf_freq_hz", Some(40.0), Some(500.0), None),
        row("eq.low_shelf_gain_db", Some(-15.0), Some(15.0), Some(0.0)),
        row("eq.mid_freq_hz", Some(200.0), Some(5_000.0), None),
        row("eq.mid_gain_db", Some(-15.0), Some(15.0), Some(0.0)),
        row("eq.mid_q", Some(0.2), Some(5.0), None),
        row("eq.high_shelf_freq_hz", Some(1_000.0), Some(12_000.0), None),
        row("eq.high_shelf_gain_db", Some(-15.0), Some(15.0), Some(0.0)),
        row("eq.high_pass_freq_hz", Some(20.0), Some(500.0), None),
        row("eq.low_pass_freq_hz", Some(1_000.0), Some(20_000.0), None),
        row("out.gain_db", Some(-60.0), Some(12.0), Some(0.0)),
        row("global.output_ceiling_db", None, None, Some(0.0)),
    ]
}

const DISCRETE: [&str; 11] = [
    "trim.dc_blocker_enabled",
    "gate.enabled",
    "nam.enabled",
    "nam.normalize_enabled",
    "ir.enabled",
    "ir.low_cut_enabled",
    "ir.high_cut_enabled",
    "eq.enabled",
    "eq.high_pass_enabled",
    "eq.low_pass_enabled",
    "global.bypass",
];

/// A choice that is still being tried out.
const PROTOTYPES: [&str; 1] = ["global.independent_channels"];

fn number(value: Single) -> f32 {
    f32::from_bits(value.bits)
}

fn find(key: &str) -> ParamDescriptor {
    registry()[position(key).expect("the registry has this key")]
}

fn continuous(d: &ParamDescriptor) -> Option<(f32, f32, f32)> {
    match d.kind {
        ParamKind::Continuous { min, max, default } => {
            Some((number(min), number(max), number(default)))
        }
        ParamKind::Stepped { .. } => None,
    }
}

/// How a value of a control reads on the screen.
fn format_value(d: &ParamDescriptor, value: f32) -> String {
    match d.format {
        ValueFormat::FixedDecimals { places } => format!("{:.*}", places as usize, value),
        ValueFormat::Named => d.option_name(value as usize).expect("a choice").to_string(),
    }
}

#[test]
fn registry_has_no_duplicate_keys_or_ids() {
    let mut keys = HashSet::new();
    let mut ids = HashSet::new();
    for d in registry() {
        assert!(keys.insert(d.key), "duplicate key: {}", d.key);
        assert!(ids.insert(d.id.value), "duplicate id for key: {}", d.key);
    }
}

#[test]
fn every_registry_descriptor_satisfies_its_own_invariants() {
    for d in registry() {
        assert!(d.validate(), "{}", d.key);
    }
}

#[test]
fn every_section_5_continuous_control_is_a_registry_parameter_with_its_frs_range_and_default() {
    let rows = continuous_rows();
    let shipped = registry().iter().filter(|d| continuous(d).is_some()).count();
    assert_eq!(shipped, rows.len());
    for want in rows {
        let d = find(want.key);
        let (min, max, default) = continuous(&d).expect("a continuous control");
        if let Some(want_min) = want.min {
            assert!(min <= want_min, "{}: {min} does not reach {want_min}", want.key);
        }
        if let Some(want_max) = want.max {
            assert!(max >= want_max, "{}: {max} does not reach {want_max}", want.key);
        }
        if let Some(want_default) = want.default {
            assert_eq!(default, want_default, "{}", want.key);
        }
    }
}

#[test]
fn every_shipped_continuous_descriptor_carries_all_seven_required_properties() {
    for d in registry() {
        let Some((min, max, default)) = continuous(&d) else {
            continue;
        };
        let key = d.key;

        assert_eq!(d.id, ParamId::from_key(key), "{key}: the id is not derived from its key");
        assert_ne!(d.id.value, 0, "{key}: id is zero");

        let (namespace, control) = key.split_once('.').expect("a namespaced key");
        assert!(!namespace.is_empty() && !control.is_empty(), "{key}");
        assert!(!control.contains('.'), "{key}: more than one namespace separator");
        assert!(
            key.bytes()
                .all(|b| b.is_ascii_lowercase() || b.is_ascii_digit() || b == b'_' || b == b'.'),
            "{key}"
        );

        assert!(!d.name.is_empty(), "{key}: empty name");
        assert_ne!(d.name, key, "{key}: name is just the key");
        assert!(!d.name.contains('.') && !d.name.contains('_'), "{key}: {:?}", d.name);
        assert!(d.name.starts_with(|c: char| c.is_ascii_uppercase()), "{key}: {:?}", d.name);

        let expected_unit = if key.ends_with("_db") {
            Some(Unit::Decibels)
        } else if key.ends_with("_hz") {
            Some(Unit::Hertz)
        } else if key.ends_with("_ms") {
            Some(Unit::Milliseconds)
        } else {
            None
        };
        if let Some(expected) = expected_unit {
            assert_eq!(d.unit, expected, "{key}: unit does not match the key suffix");
        }

        assert!(min.is_finite() && max.is_finite(), "{key}: non-finite range");
        assert!(min < max, "{key}: minimum {min} is not below maximum {max}");
        assert!(default.is_finite(), "{key}: non-finite default");
        assert!((min..=max).contains(&default), "{key}: {default} lies outside {min}..={max}");

        let ValueFormat::FixedDecimals { places } = d.format else {
            panic!("{key}: a continuous parameter formatted as Named");
        };
        for value in [min, default, max] {
            let text = format_value(&d, value);
            assert!(!text.is_empty(), "{key}: empty rendering of {value}");
            let parsed: f32 = text.parse().expect("a number");
            let resolution = 10f32.powi(-(places as i32));
            assert!((parsed - value).abs() <= resolution, "{key}: {value} renders as {text:?}");
        }

        assert_ne!(d.smoothing, SmoothingCategory::Stepped, "{key}");
    }
}

#[test]
fn every_section_5_discrete_choice_is_a_stepped_parameter_with_named_values() {
    let shipped = registry().iter().filter(|d| continuous(d).is_none()).count();
    assert_eq!(shipped - PROTOTYPES.len(), DISCRETE.len());
    for key in DISCRETE {
        let d = find(key);
        let ParamKind::Stepped { values, default_index } = d.kind else {
            panic!("{key}: a discrete choice exposed as a continuous range");
        };
        assert!(values.count() >= 2, "{key}");
        for i in 0..values.count() {
            let v = values.name(i);
            assert!(!v.is_empty(), "{key}: option {i} has no name");
            assert!(v.parse::<f64>().is_err(), "{key}: option {i} is named {v:?}");
            for j in i + 1..values.count() {
                assert_ne!(v, values.name(j), "{key}: two options share the name {v:?}");
            }
        }
        assert!(default_index < values.count(), "{key}");
        assert_eq!(d.format, ValueFormat::Named, "{key}: stepped, but formatted as a number");
        for i in 0..values.count() {
            assert_eq!(format_value(&d, i as f32), values.name(i), "{key}");
        }
        assert_eq!(d.smoothing, SmoothingCategory::Stepped, "{key}");
        assert_eq!(d.id, ParamId::from_key(key), "{key}: id is not derived");
    }
}

#[test]
fn no_discrete_looking_parameter_is_modelled_as_a_continuous_range() {
    for d in registry() {
        let looks_discrete = d.key.ends_with("_enabled") || d.key.ends_with(".bypass");
        if looks_discrete {
            assert!(continuous(&d).is_none(), "{}", d.key);
        }
    }
}

#[test]
fn gate_every_control_matches_the_range_and_default_the_requirement_tabulates() {
    let tabulated = [
        ("gate.threshold_db", -100.0f32, 0.0f32, -70.0f32),
        ("gate.attack_ms", 0.1, 50.0, 1.0),
        ("gate.hold_ms", 0.0, 500.0, 30.0),
        ("gate.release_ms", 1.0, 2000.0, 100.0),
    ];
    for (key, min, max, default) in tabulated {
        assert_eq!(continuous(&find(key)), Some((min, max, default)), "{key}");
    }
    let ParamKind::Stepped { values, default_index } = find("gate.enabled").kind else {
        panic!("gate.enabled is a choice");
    };
    let names: Vec<&str> = (0..values.count()).map(|i| values.name(i)).collect();
    assert_eq!(names, ["Off", "On"]);
    assert_eq!(default_index, 1);
}

#[test]
fn ir_every_control_matches_the_range_and_default_the_requirement_tabulates() {
    for (key, min, max, default) in [
        ("ir.level_db", -24.0f32, 24.0f32, 0.0f32),
        ("ir.low_cut_freq_hz", 20.0, 500.0, 80.0),
        ("ir.high_cut_freq_hz", 1_000.0, 20_000.0, 8_000.0),
    ] {
        assert_eq!(continuous(&find(key)), Some((min, max, default)), "{key}");
    }
    for (key, default) in
        [("ir.enabled", 1usize), ("ir.low_cut_enabled", 0), ("ir.high_cut_enabled", 0)]
    {
        let ParamKind::Stepped { values, default_index } = find(key).kind else {
            panic!("{key} is a choice");
        };
        let names: Vec<&str> = (0..values.count()).map(|i| values.name(i)).collect();
        assert_eq!(names, ["Off", "On"], "{key}: named values");
        assert_eq!(default_index, default, "{key}: default index");
    }
}

#[test]
fn a_key_is_found_at_its_place_and_an_unknown_one_nowhere() {
    assert_eq!(registry().len(), 32);
    for (i, d) in registry().iter().enumerate() {
        assert_eq!(position(d.key), Some(i));
    }
    assert_eq!(position("gate.threshold"), None);
    assert_eq!(position(""), None);
}

#[test]
fn an_id_is_the_32_bit_fnv_1a_hash_of_its_key() {
    assert_eq!(ParamId::from_key("").value, 0x811C_9DC5);
    assert_eq!(ParamId::from_key("a").value, 0xE40C_292C);
    assert_eq!(ParamId::from_key("foobar").value, 0xBF9C_F968);
}

#[test]
fn a_descriptor_with_its_default_outside_its_range_is_invalid() {
    let mut d = find("trim.gain_db");
    d.kind = ParamKind::Continuous {
        min: Single::from_bits((-1.0f32).to_bits()),
        max: Single::from_bits(1.0f32.to_bits()),
        default: Single::from_bits(2.0f32.to_bits()),
    };
    assert!(!d.validate());
    d.kind = ParamKind::Continuous {
        min: Single::from_bits(1.0f32.to_bits()),
        max: Single::from_bits(1.0f32.to_bits()),
        default: Single::from_bits(1.0f32.to_bits()),
    };
    assert!(!d.validate());
    d.kind = ParamKind::Continuous {
        min: Single::zero(),
        max: Single::from_bits(f32::INFINITY.to_bits()),
        default: Single::zero(),
    };
    assert!(!d.validate());
    d.kind = ParamKind::Stepped { values: StepValues::OffOn, default_index: 2 };
    assert!(!d.validate());
    d.kind = ParamKind::Stepped { values: StepValues::LinkedIndependent, default_index: 1 };
    assert!(d.validate());
}

#[test]
fn a_control_holds_a_value_within_its_range() {
    let gain = find("trim.gain_db").kind;
    for (given, held) in [(30.0f32, 24.0f32), (-30.0, -24.0), (3.5, 3.5)] {
        assert_eq!(number(gain.hold(Single::from_bits(given.to_bits()))), held);
    }
    let choice = find("gate.enabled").kind;
    assert_eq!(choice.hold(Single::from_bits(7.0f32.to_bits())), Single::one());
    assert_eq!(choice.hold(Single::from_bits((-7.0f32).to_bits())), Single::zero());
}

#[test]
fn an_option_past_the_last_reads_as_the_last() {
    assert_eq!(find("global.independent_channels").option_name(0), Some("Linked"));
    assert_eq!(find("global.independent_channels").option_name(9), Some("Independent"));
    assert_eq!(find("trim.gain_db").option_name(0), None);
}
