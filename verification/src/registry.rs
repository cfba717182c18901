//! Every parameter this build knows, in its permanent order.

use vstd::prelude::*;

use crate::text;
use crate::descriptor::{
    continuous, stepped, ParamDescriptor, ParamKind, SmoothingCategory, StepValues, Unit, ValueFormat,
};
use crate::identity;
use crate::single::Single;

verus! {

/// From -24 to 24, 0 by default.
#[verifier::allow_in_spec]
pub fn trim_gain_db() -> ParamDescriptor
    returns
        continuous(
            "trim.gain_db",
            "Input Trim",
            Unit::Decibels,
            (0xC1C0_0000, 0x41C0_0000, 0x0000_0000),
            1,
            SmoothingCategory::Gain,
        ),
{
    continuous(
        "trim.gain_db",
        "Input Trim",
        Unit::Decibels,
        (0xC1C0_0000, 0x41C0_0000, 0x0000_0000),
        1,
        SmoothingCategory::Gain,
    )
}

/// On by default.
#[verifier::allow_in_spec]
pub fn trim_dc_blocker_enabled() -> ParamDescriptor
    returns
        stepped("trim.dc_blocker_enabled", "DC Blocker", StepValues::OffOn, 1),
{
    stepped("trim.dc_blocker_enabled", "DC Blocker", StepValues::OffOn, 1)
}

/// On by default.
#[verifier::allow_in_spec]
pub fn gate_enabled() -> ParamDescriptor
    returns
        stepped("gate.enabled", "Gate Enabled", StepValues::OffOn, 1),
{
    stepped("gate.enabled", "Gate Enabled", StepValues::OffOn, 1)
}

/// From -100 to 0, -70 by default.
#[verifier::allow_in_spec]
pub fn gate_threshold_db() -> ParamDescriptor
    returns
        continuous(
            "gate.threshold_db",
            "Gate Threshold",
            Unit::Decibels,
            (0xC2C8_0000, 0x0000_0000, 0xC28C_0000),
            1,
            SmoothingCategory::Gain,
        ),
{
    continuous(
        "gate.threshold_db",
        "Gate Threshold",
        Unit::Decibels,
        (0xC2C8_0000, 0x0000_0000, 0xC28C_0000),
        1,
        SmoothingCategory::Gain,
    )
}

/// From 0.1 to 50, 1 by default.
#[verifier::allow_in_spec]
pub fn gate_attack_ms() -> ParamDescriptor
    returns
        continuous(
            "gate.attack_ms",
            "Gate Attack",
            Unit::Milliseconds,
            (0x3DCC_CCCD, 0x4248_0000, 0x3F80_0000),
            1,
            SmoothingCategory::EnvelopeTime,
        ),
{
    continuous(
        "gate.attack_ms",
        "Gate Attack",
        Unit::Milliseconds,
        (0x3DCC_CCCD, 0x4248_0000, 0x3F80_0000),
        1,
        SmoothingCategory::EnvelopeTime,
    )
}

/// From 0 to 500, 30 by default.
#[verifier::allow_in_spec]
pub fn gate_hold_ms() -> ParamDescriptor
    returns
        continuous(
            "gate.hold_ms",
            "Gate Hold",
            Unit::Milliseconds,
            (0x0000_0000, 0x43FA_0000, 0x41F0_0000),
            1,
            SmoothingCategory::EnvelopeTime,
        ),
{
    continuous(
        "gate.hold_ms",
        "Gate Hold",
        Unit::Milliseconds,
        (0x0000_0000, 0x43FA_0000, 0x41F0_0000),
        1,
        SmoothingCategory::EnvelopeTime,
    )
}

/// From 1 to 2000, 100 by default.
#[verifier::allow_in_spec]
pub fn gate_release_ms() -> ParamDescriptor
    returns
        continuous(
            "gate.release_ms",
            "Gate Release",
            Unit::Milliseconds,
            (0x3F80_0000, 0x44FA_0000, 0x42C8_0000),
            1,
            SmoothingCategory::EnvelopeTime,
        ),
{
    continuous(
        "gate.release_ms",
        "Gate Release",
        Unit::Milliseconds,
        (0x3F80_0000, 0x44FA_0000, 0x42C8_0000),
        1,
        SmoothingCategory::EnvelopeTime,
    )
}

/// On by default.
#[verifier::allow_in_spec]
pub fn nam_enabled() -> ParamDescriptor
    returns
        stepped("nam.enabled", "NAM Enabled", StepValues::OffOn, 1),
{
    stepped("nam.enabled", "NAM Enabled", StepValues::OffOn, 1)
}

/// On by default.
#[verifier::allow_in_spec]
pub fn nam_normalize_enabled() -> ParamDescriptor
    returns
        stepped("nam.normalize_enabled", "NAM Normalize", StepValues::OffOn, 1),
{
    stepped("nam.normalize_enabled", "NAM Normalize", StepValues::OffOn, 1)
}

/// From -24 to 24, 0 by default.
#[verifier::allow_in_spec]
pub fn nam_normalize_offset_db() -> ParamDescriptor
    returns
        continuous(
            "nam.normalize_offset_db",
            "NAM Normalize Offset",
            Unit::Decibels,
            (0xC1C0_0000, 0x41C0_0000, 0x0000_0000),
            1,
            SmoothingCategory::Gain,
        ),
{
    continuous(
        "nam.normalize_offset_db",
        "NAM Normalize Offset",
        Unit::Decibels,
        (0xC1C0_0000, 0x41C0_0000, 0x0000_0000),
        1,
        SmoothingCategory::Gain,
    )
}

/// On by default.
#[verifier::allow_in_spec]
pub fn ir_enabled() -> ParamDescriptor
    returns
        stepped("ir.enabled", "IR Enabled", StepValues::OffOn, 1),
{
    stepped("ir.enabled", "IR Enabled", StepValues::OffOn, 1)
}

/// From -24 to 24, 0 by default.
#[verifier::allow_in_spec]
pub fn ir_level_db() -> ParamDescriptor
    returns
        continuous(
            "ir.level_db",
            "IR Level",
            Unit::Decibels,
            (0xC1C0_0000, 0x41C0_0000, 0x0000_0000),
            1,
            SmoothingCategory::Gain,
        ),
{
    continuous(
        "ir.level_db",
        "IR Level",
        Unit::Decibels,
        (0xC1C0_0000, 0x41C0_0000, 0x0000_0000),
        1,
        SmoothingCategory::Gain,
    )
}

/// Off by default.
#[verifier::allow_in_spec]
pub fn ir_low_cut_enabled() -> ParamDescriptor
    returns
        stepped("ir.low_cut_enabled", "IR Low Cut Enabled", StepValues::OffOn, 0),
{
    stepped("ir.low_cut_enabled", "IR Low Cut Enabled", StepValues::OffOn, 0)
}

/// From 20 to 500, 80 by default.
#[verifier::allow_in_spec]
pub fn ir_low_cut_freq_hz() -> ParamDescriptor
    returns
        continuous(
            "ir.low_cut_freq_hz",
            "IR Low Cut",
            Unit::Hertz,
            (0x41A0_0000, 0x43FA_0000, 0x42A0_0000),
            1,
            SmoothingCategory::FilterCoefficients,
        ),
{
    continuous(
        "ir.low_cut_freq_hz",
        "IR Low Cut",
        Unit::Hertz,
        (0x41A0_0000, 0x43FA_0000, 0x42A0_0000),
        1,
        SmoothingCategory::FilterCoefficients,
    )
}

/// Off by default.
#[verifier::allow_in_spec]
pub fn ir_high_cut_enabled() -> ParamDescriptor
    returns
        stepped("ir.high_cut_enabled", "IR High Cut Enabled", StepValues::OffOn, 0),
{
    stepped("ir.high_cut_enabled", "IR High Cut Enabled", StepValues::OffOn, 0)
}

/// From 1000 to 20000, 8000 by default.
#[verifier::allow_in_spec]
pub fn ir_high_cut_freq_hz() -> ParamDescriptor
    returns
        continuous(
            "ir.high_cut_freq_hz",
            "IR High Cut",
            Unit::Hertz,
            (0x447A_0000, 0x469C_4000, 0x45FA_0000),
            1,
            SmoothingCategory::FilterCoefficients,
        ),
{
    continuous(
        "ir.high_cut_freq_hz",
        "IR High Cut",
        Unit::Hertz,
        (0x447A_0000, 0x469C_4000, 0x45FA_0000),
        1,
        SmoothingCategory::FilterCoefficients,
    )
}

/// On by default.
#[verifier::allow_in_spec]
pub fn eq_enabled() -> ParamDescriptor
    returns
        stepped("eq.enabled", "EQ Enabled", StepValues::OffOn, 1),
{
    stepped("eq.enabled", "EQ Enabled", StepValues::OffOn, 1)
}

/// From 40 to 500, 100 by default.
#[verifier::allow_in_spec]
pub fn eq_low_shelf_freq_hz() -> ParamDescriptor
    returns
        continuous(
            "eq.low_shelf_freq_hz",
            "EQ Low Shelf",
            Unit::Hertz,
            (0x4220_0000, 0x43FA_0000, 0x42C8_0000),
            1,
            SmoothingCategory::FilterCoefficients,
        ),
{
    continuous(
        "eq.low_shelf_freq_hz",
        "EQ Low Shelf",
        Unit::Hertz,
        (0x4220_0000, 0x43FA_0000, 0x42C8_0000),
        1,
        SmoothingCategory::FilterCoefficients,
    )
}

/// From -15 to 15, 0 by default.
#[verifier::allow_in_spec]
pub fn eq_low_shelf_gain_db() -> ParamDescriptor
    returns
        continuous(
            "eq.low_shelf_gain_db",
            "EQ Low Shelf Gain",
            Unit::Decibels,
            (0xC170_0000, 0x4170_0000, 0x0000_0000),
            1,
            SmoothingCategory::FilterCoefficients,
        ),
{
    continuous(
        "eq.low_shelf_gain_db",
        "EQ Low Shelf Gain",
        Unit::Decibels,
        (0xC170_0000, 0x4170_0000, 0x0000_0000),
        1,
        SmoothingCategory::FilterCoefficients,
    )
}

/// From 200 to 5000, 1000 by default.
#[verifier::allow_in_spec]
pub fn eq_mid_freq_hz() -> ParamDescriptor
    returns
        continuous(
            "eq.mid_freq_hz",
            "EQ Mid",
            Unit::Hertz,
            (0x4348_0000, 0x459C_4000, 0x447A_0000),
            1,
            SmoothingCategory::FilterCoefficients,
        ),
{
    continuous(
        "eq.mid_freq_hz",
        "EQ Mid",
        Unit::Hertz,
        (0x4348_0000, 0x459C_4000, 0x447A_0000),
        1,
        SmoothingCategory::FilterCoefficients,
    )
}

/// From -15 to 15, 0 by default.
#[verifier::allow_in_spec]
pub fn eq_mid_gain_db() -> ParamDescriptor
    returns
        continuous(
            "eq.mid_gain_db",
            "EQ Mid Gain",
            Unit::Decibels,
            (0xC170_0000, 0x4170_0000, 0x0000_0000),
            1,
            SmoothingCategory::FilterCoefficients,
        ),
{
    continuous(
        "eq.mid_gain_db",
        "EQ Mid Gain",
        Unit::Decibels,
        (0xC170_0000, 0x4170_0000, 0x0000_0000),
        1,
        SmoothingCategory::FilterCoefficients,
    )
}

/// From 0.2 to 5, 1 by default.
#[verifier::allow_in_spec]
pub fn eq_mid_q() -> ParamDescriptor
    returns
        continuous(
            "eq.mid_q",
            "EQ Mid Q",
            Unit::Plain,
            (0x3E4C_CCCD, 0x40A0_0000, 0x3F80_0000),
            2,
            SmoothingCategory::FilterCoefficients,
        ),
{
    continuous(
        "eq.mid_q",
        "EQ Mid Q",
        Unit::Plain,
        (0x3E4C_CCCD, 0x40A0_0000, 0x3F80_0000),
        2,
        SmoothingCategory::FilterCoefficients,
    )
}

/// From 1000 to 12000, 4000 by default.
#[verifier::allow_in_spec]
pub fn eq_high_shelf_freq_hz() -> ParamDescriptor
    returns
        continuous(
            "eq.high_shelf_freq_hz",
            "EQ High Shelf",
            Unit::Hertz,
            (0x447A_0000, 0x463B_8000, 0x457A_0000),
            1,
            SmoothingCategory::FilterCoefficients,
        ),
{
    continuous(
        "eq.high_shelf_freq_hz",
        "EQ High Shelf",
        Unit::Hertz,
        (0x447A_0000, 0x463B_8000, 0x457A_0000),
        1,
        SmoothingCategory::FilterCoefficients,
    )
}

/// From -15 to 15, 0 by default.
#[verifier::allow_in_spec]
pub fn eq_high_shelf_gain_db() -> ParamDescriptor
    returns
        continuous(
            "eq.high_shelf_gain_db",
            "EQ High Shelf Gain",
            Unit::Decibels,
            (0xC170_0000, 0x4170_0000, 0x0000_0000),
            1,
            SmoothingCategory::FilterCoefficients,
        ),
{
    continuous(
        "eq.high_shelf_gain_db",
        "EQ High Shelf Gain",
        Unit::Decibels,
        (0xC170_0000, 0x4170_0000, 0x0000_0000),
        1,
        SmoothingCategory::FilterCoefficients,
    )
}

/// Off by default.
#[verifier::allow_in_spec]
pub fn eq_high_pass_enabled() -> ParamDescriptor
    returns
        stepped("eq.high_pass_enabled", "EQ High Pass Enabled", StepValues::OffOn, 0),
{
    stepped("eq.high_pass_enabled", "EQ High Pass Enabled", StepValues::OffOn, 0)
}

/// From 20 to 500, 80 by default.
#[verifier::allow_in_spec]
pub fn eq_high_pass_freq_hz() -> ParamDescriptor
    returns
        continuous(
            "eq.high_pass_freq_hz",
            "EQ High Pass",
            Unit::Hertz,
            (0x41A0_0000, 0x43FA_0000, 0x42A0_0000),
            1,
            SmoothingCategory::FilterCoefficients,
        ),
{
    continuous(
        "eq.high_pass_freq_hz",
        "EQ High Pass",
        Unit::Hertz,
        (0x41A0_0000, 0x43FA_0000, 0x42A0_0000),
        1,
        SmoothingCategory::FilterCoefficients,
    )
}

/// Off by default.
#[verifier::allow_in_spec]
pub fn eq_low_pass_enabled() -> ParamDescriptor
    returns
        stepped("eq.low_pass_enabled", "EQ Low Pass Enabled", StepValues::OffOn, 0),
{
    stepped("eq.low_pass_enabled", "EQ Low Pass Enabled", StepValues::OffOn, 0)
}

/// From 1000 to 20000, 8000 by default.
#[verifier::allow_in_spec]
pub fn eq_low_pass_freq_hz() -> ParamDescriptor
    returns
        continuous(
            "eq.low_pass_freq_hz",
            "EQ Low Pass",
            Unit::Hertz,
            (0x447A_0000, 0x469C_4000, 0x45FA_0000),
            1,
            SmoothingCategory::FilterCoefficients,
        ),
{
    continuous(
        "eq.low_pass_freq_hz",
        "EQ Low Pass",
        Unit::Hertz,
        (0x447A_0000, 0x469C_4000, 0x45FA_0000),
        1,
        SmoothingCategory::FilterCoefficients,
    )
}

/// From -60 to 12, 0 by default.
#[verifier::allow_in_spec]
pub fn out_gain_db() -> ParamDescriptor
    returns
        continuous(
            "out.gain_db",
            "Output Gain",
            Unit::Decibels,
            (0xC270_0000, 0x4140_0000, 0x0000_0000),
            1,
            SmoothingCategory::Gain,
        ),
{
    continuous(
        "out.gain_db",
        "Output Gain",
        Unit::Decibels,
        (0xC270_0000, 0x4140_0000, 0x0000_0000),
        1,
        SmoothingCategory::Gain,
    )
}

/// Off by default.
#[verifier::allow_in_spec]
pub fn global_bypass() -> ParamDescriptor
    returns
        stepped("global.bypass", "Global Bypass", StepValues::OffOn, 0),
{
    stepped("global.bypass", "Global Bypass", StepValues::OffOn, 0)
}

/// From -24 to 0, 0 by default.
#[verifier::allow_in_spec]
pub fn global_output_ceiling_db() -> ParamDescriptor
    returns
        continuous(
            "global.output_ceiling_db",
            "Output Ceiling",
            Unit::Decibels,
            (0xC1C0_0000, 0x0000_0000, 0x0000_0000),
            1,
            SmoothingCategory::Gain,
        ),
{
    continuous(
        "global.output_ceiling_db",
        "Output Ceiling",
        Unit::Decibels,
        (0xC1C0_0000, 0x0000_0000, 0x0000_0000),
        1,
        SmoothingCategory::Gain,
    )
}

/// Linked by default.
#[verifier::allow_in_spec]
pub fn global_independent_channels() -> ParamDescriptor
    returns
        stepped("global.independent_channels", "Channel Mode", StepValues::LinkedIndependent, 0),
{
    stepped("global.independent_channels", "Channel Mode", StepValues::LinkedIndependent, 0)
}

/// The whole registry.
#[verifier::opaque]
pub open spec fn registry_entries() -> Seq<ParamDescriptor> {
    seq![
        trim_gain_db(),
        trim_dc_blocker_enabled(),
        gate_enabled(),
        gate_threshold_db(),
        gate_attack_ms(),
        gate_hold_ms(),
        gate_release_ms(),
        nam_enabled(),
        nam_normalize_enabled(),
        nam_normalize_offset_db(),
        ir_enabled(),
        ir_level_db(),
        ir_low_cut_enabled(),
        ir_low_cut_freq_hz(),
        ir_high_cut_enabled(),
        ir_high_cut_freq_hz(),
        eq_enabled(),
        eq_low_shelf_freq_hz(),
        eq_low_shelf_gain_db(),
        eq_mid_freq_hz(),
        eq_mid_gain_db(),
        eq_mid_q(),
        eq_high_shelf_freq_hz(),
        eq_high_shelf_gain_db(),
        eq_high_pass_enabled(),
        eq_high_pass_freq_hz(),
        eq_low_pass_enabled(),
        eq_low_pass_freq_hz(),
        out_gain_db(),
        global_bypass(),
        global_output_ceiling_db(),
        global_independent_channels(),
    ]
}

/// The whole registry, in order.
pub fn registry() -> (r: Vec<ParamDescriptor>)
    ensures
        r@ == registry_entries(),
{
    proof {
        reveal(registry_entries);
    }
    vec![
        trim_gain_db(),
        trim_dc_blocker_enabled(),
        gate_enabled(),
        gate_threshold_db(),
        gate_attack_ms(),
        gate_hold_ms(),
        gate_release_ms(),
        nam_enabled(),
        nam_normalize_enabled(),
        nam_normalize_offset_db(),
        ir_enabled(),
        ir_level_db(),
        ir_low_cut_enabled(),
        ir_low_cut_freq_hz(),
        ir_high_cut_enabled(),
        ir_high_cut_freq_hz(),
        eq_enabled(),
        eq_low_shelf_freq_hz(),
        eq_low_shelf_gain_db(),
        eq_mid_freq_hz(),
        eq_mid_gain_db(),
        eq_mid_q(),
        eq_high_shelf_freq_hz(),
        eq_high_shelf_gain_db(),
        eq_high_pass_enabled(),
        eq_high_pass_freq_hz(),
        eq_low_pass_enabled(),
        eq_low_pass_freq_hz(),
        out_gain_db(),
        global_bypass(),
        global_output_ceiling_db(),
        global_independent_channels(),
    ]
}

/// The entry at `i` has this key.
pub open spec fn keyed(key: Seq<char>, i: int) -> bool {
    0 <= i < registry_entries().len() && registry_entries()[i].key@ == key
}

/// The registry has this key.
pub open spec fn known(key: Seq<char>) -> bool {
    exists|i: int| keyed(key, i)
}

/// The first entry with this key is at `i`.
pub open spec fn first_at(key: Seq<char>, i: int) -> bool {
    keyed(key, i) && forall|j: int| 0 <= j < i ==> !keyed(key, j)
}

/// Where a key that the registry has is.
pub open spec fn place_of(key: Seq<char>) -> int {
    choose|i: int| first_at(key, i)
}

/// A key that the registry has, has a first place in it.
pub proof fn lemma_a_known_key_has_a_first_place(key: Seq<char>, i: int)
    requires
        keyed(key, i),
    ensures
        first_at(key, place_of(key)),
    decreases i,
{
    if forall|j: int| 0 <= j < i ==> !keyed(key, j) {
        assert(first_at(key, i));
    } else {
        let j = choose|j: int| 0 <= j < i && keyed(key, j);
        lemma_a_known_key_has_a_first_place(key, j);
    }
}

/// The place of a key in the registry, if it is there.
pub fn position(key: &str) -> (r: Option<usize>)
    ensures
        match r {
            Some(i) => known(key@) && i == place_of(key@) && first_at(key@, i as int),
            None => !known(key@),
        },
{
    let entries: Vec<ParamDescriptor> = registry();
    let mut i: usize = 0;
    while i < entries.len()
        invariant
            entries@ == registry_entries(),
            i <= entries@.len(),
            forall|j: int| 0 <= j < i ==> !keyed(key@, j),
        decreases entries@.len() - i,
    {
        if text::same_text(entries[i].key, key) {
            proof {
                assert(keyed(key@, i as int));
                assert(first_at(key@, i as int));
                let p = place_of(key@);
                assert(first_at(key@, p));
                assert(!(p < i)) by {
                    if p < i {
                        assert(!keyed(key@, p));
                    }
                }
                assert(!(i < p)) by {
                    if i < p {
                        assert(!keyed(key@, i as int));
                    }
                }
            }
            return Some(i);
        }
        i += 1;
    }
    None
}

/// Every entry's range, or options, and its default fit each other.
pub proof fn lemma_every_entry_is_valid(i: int)
    requires
        0 <= i < registry_entries().len(),
    ensures
        registry_entries()[i].kind.valid(),
{
    reveal(registry_entries);
}

/// Every entry's identity is derived from its key.
pub proof fn lemma_every_id_derives_from_its_key(i: int)
    requires
        0 <= i < registry_entries().len(),
    ensures
        registry_entries()[i].id == crate::param::id_of(registry_entries()[i].key@),
{
    reveal(registry_entries);
}

/// What a control is decides how it is smoothed and how it reads: a time as an envelope, a frequency
/// or a quality as a filter, and a level as a gain unless it belongs to the equalizer's filters; a
/// choice in steps, by the names of its options. All but the quality read with one decimal.
pub proof fn lemma_smoothing_follows_what_a_control_is(i: int)
    requires
        0 <= i < registry_entries().len(),
    ensures
        ({
            let e = registry_entries()[i];
            &&& e.kind is Stepped <==> e.smoothing == SmoothingCategory::Stepped
            &&& e.kind is Stepped <==> e.format == ValueFormat::Named
            &&& e.kind is Stepped ==> e.unit == Unit::Plain
            &&& e.unit == Unit::Milliseconds ==> e.smoothing == SmoothingCategory::EnvelopeTime
            &&& e.unit == Unit::Hertz ==> e.smoothing == SmoothingCategory::FilterCoefficients
            &&& e.kind is Continuous && e.unit == Unit::Plain ==> e.smoothing
                == SmoothingCategory::FilterCoefficients && e.format == (ValueFormat::FixedDecimals {
                places: 2,
            })
            &&& e.kind is Continuous && e.unit != Unit::Plain ==> e.format == (
            ValueFormat::FixedDecimals { places: 1 })
            &&& e.unit == Unit::Decibels && (e.key@ == "eq.low_shelf_gain_db"@ || e.key@
                == "eq.mid_gain_db"@ || e.key@ == "eq.high_shelf_gain_db"@) ==> e.smoothing
                == SmoothingCategory::FilterCoefficients
            &&& e.unit == Unit::Decibels && !(e.key@ == "eq.low_shelf_gain_db"@ || e.key@
                == "eq.mid_gain_db"@ || e.key@ == "eq.high_shelf_gain_db"@) ==> e.smoothing
                == SmoothingCategory::Gain
        }),
{
    identity::lemma_identities_are_told_apart();
    reveal(registry_entries);
    assert(registry_entries()[18].key@ == "eq.low_shelf_gain_db"@);
    assert(registry_entries()[20].key@ == "eq.mid_gain_db"@);
    assert(registry_entries()[23].key@ == "eq.high_shelf_gain_db"@);
    let e = registry_entries()[i];
    assert(e.id == crate::param::id_of(e.key@));
}

/// The controls that do the same thing agree: the trim, the offset and the level of the impulse
/// response span the same decibels around zero, the equalizer's three gains do, and each of the
/// equalizer's two passes has the range and the default of the cut behind the impulse response that
/// it repeats. No level is shown above what its stage can give: the ceiling and the threshold end
/// at full scale.
pub proof fn lemma_controls_that_do_the_same_agree()
    ensures
        trim_gain_db().kind == nam_normalize_offset_db().kind,
        trim_gain_db().kind == ir_level_db().kind,
        eq_low_shelf_gain_db().kind == eq_mid_gain_db().kind,
        eq_low_shelf_gain_db().kind == eq_high_shelf_gain_db().kind,
        ir_low_cut_freq_hz().kind == eq_high_pass_freq_hz().kind,
        ir_high_cut_freq_hz().kind == eq_low_pass_freq_hz().kind,
        gate_threshold_db().kind->max == Single::zero(),
        global_output_ceiling_db().kind->max == Single::zero(),
        global_output_ceiling_db().kind->default == Single::zero(),
        global_output_ceiling_db().kind->min == trim_gain_db().kind->min,
        out_gain_db().kind->default == Single::zero(),
        trim_gain_db().kind->default == Single::zero(),
        eq_mid_gain_db().kind->default == Single::zero(),
{
}

/// What is on, and what is off, before anything is set: the DC blocker, the noise gate, the model,
/// its normalization, the impulse response and the equalizer are on; the cuts, the passes, the
/// bypass and the independence of the channels are off. Every choice is between off and on but for
/// that of the channels.
pub proof fn lemma_what_is_on_by_default(i: int)
    requires
        0 <= i < registry_entries().len(),
    ensures
        ({
            let e = registry_entries()[i];
            let key = e.key@;
            &&& e.kind matches ParamKind::Stepped { default_index, .. } ==> {
                &&& default_index < 2
                &&& default_index == 1 <==> (key == "trim.dc_blocker_enabled"@ || key
                    == "gate.enabled"@ || key == "nam.enabled"@ || key
                    == "nam.normalize_enabled"@ || key == "ir.enabled"@ || key == "eq.enabled"@)
            }
            &&& e.kind matches ParamKind::Stepped { values, .. } ==> (values
                == StepValues::LinkedIndependent <==> key == "global.independent_channels"@)
        }),
{
    identity::lemma_identities_are_told_apart();
    reveal(registry_entries);
    assert(registry_entries()[1].key@ == "trim.dc_blocker_enabled"@);
    assert(registry_entries()[2].key@ == "gate.enabled"@);
    assert(registry_entries()[7].key@ == "nam.enabled"@);
    assert(registry_entries()[8].key@ == "nam.normalize_enabled"@);
    assert(registry_entries()[10].key@ == "ir.enabled"@);
    assert(registry_entries()[16].key@ == "eq.enabled"@);
    assert(registry_entries()[31].key@ == "global.independent_channels"@);
    let e = registry_entries()[i];
    assert(e.id == crate::param::id_of(e.key@));
}

/// Where the ranges lie that no other control shares, by the numbers' own order: the equalizer's
/// shelves and its middle band each within the band below or above the other, the quality between
/// a fifth and five, and the output between sixty decibels down and twelve up.
pub proof fn lemma_the_bands_lie_in_order()
    ensures
        eq_low_shelf_freq_hz().kind->min == (Single { bits: 0x4220_0000 }),
        eq_low_shelf_freq_hz().kind->max == ir_low_cut_freq_hz().kind->max,
        eq_mid_freq_hz().kind->min == (Single { bits: 0x4348_0000 }),
        eq_mid_freq_hz().kind->max == (Single { bits: 0x459C_4000 }),
        eq_high_shelf_freq_hz().kind->min == ir_high_cut_freq_hz().kind->min,
        eq_high_shelf_freq_hz().kind->max == (Single { bits: 0x463B_8000 }),
        eq_low_shelf_freq_hz().kind->min.below(eq_mid_freq_hz().kind->min),
        eq_mid_freq_hz().kind->min.below(eq_high_shelf_freq_hz().kind->min),
        eq_low_shelf_freq_hz().kind->max.below(eq_mid_freq_hz().kind->max),
        eq_mid_freq_hz().kind->max.below(eq_high_shelf_freq_hz().kind->max),
        eq_mid_q().kind->min == (Single { bits: 0x3E4C_CCCD }),
        eq_mid_q().kind->max == (Single { bits: 0x40A0_0000 }),
        eq_mid_q().kind->default == Single::one(),
        out_gain_db().kind->min == (Single { bits: 0xC270_0000 }),
        out_gain_db().kind->max == (Single { bits: 0x4140_0000 }),
        eq_mid_gain_db().kind->min == (Single { bits: 0xC170_0000 }),
        eq_mid_gain_db().kind->max == (Single { bits: 0x4170_0000 }),
        trim_gain_db().kind->min == (Single { bits: 0xC1C0_0000 }),
        trim_gain_db().kind->max == (Single { bits: 0x41C0_0000 }),
{
}

} // verus!
