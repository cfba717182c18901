//! What a parameter is: its key, name, unit, range or choices, and how it is shown and smoothed.

use vstd::prelude::*;

use crate::param;
use crate::param::ParamId;
use crate::single::Single;

verus! {

#[derive(Debug, Clone, Copy, PartialEq, Eq, Structural)]
pub enum Unit {
    Plain,
    Decibels,
    Hertz,
    Milliseconds,
}

/// How a value reads.
#[derive(Debug, Clone, Copy, PartialEq, Eq, Structural)]
pub enum ValueFormat {
    /// A number with so many decimals.
    FixedDecimals { places: u32 },
    /// The chosen option's name.
    Named,
}

/// How a change is smoothed on the audio path.
#[derive(Debug, Clone, Copy, PartialEq, Eq, Structural)]
pub enum SmoothingCategory {
    Gain,
    FilterCoefficients,
    EnvelopeTime,
    Stepped,
}

/// The named options of a discrete choice.
#[derive(Debug, Clone, Copy, PartialEq, Eq, Structural)]
pub enum StepValues {
    OffOn,
    LinkedIndependent,
}

impl StepValues {
    pub open spec fn names(self) -> Seq<Seq<char>> {
        match self {
            StepValues::OffOn => seq!["Off"@, "On"@],
            StepValues::LinkedIndependent => seq!["Linked"@, "Independent"@],
        }
    }

    /// How many options there are.
    pub fn count(self) -> (n: usize)
        ensures
            n == self.names().len(),
    {
        match self {
            StepValues::OffOn => 2,
            StepValues::LinkedIndependent => 2,
        }
    }

    /// The name of one option; an index past the end reads as the last one.
    pub fn name(self, index: usize) -> (s: &'static str)
        ensures
            s@ == self.names()[if index < self.names().len() {
                index as int
            } else {
                self.names().len() - 1
            }],
    {
        match self {
            StepValues::OffOn => if index == 0 {
                "Off"
            } else {
                "On"
            },
            StepValues::LinkedIndependent => if index == 0 {
                "Linked"
            } else {
                "Independent"
            },
        }
    }
}

#[derive(Debug, Clone, Copy, PartialEq, Eq, Structural)]
pub enum ParamKind {
    Continuous { min: Single, max: Single, default: Single },
    Stepped { values: StepValues, default_index: usize },
}

impl ParamKind {
    /// A finite range that is not empty and holds the default, or options among which the default
    /// is.
    pub open spec fn valid(self) -> bool {
        match self {
            ParamKind::Continuous { min, max, default } => {
                &&& min.below(max)
                &&& !default.is_nan()
                &&& min.magnitude() < crate::single::INFINITY_MAGNITUDE
                &&& max.magnitude() < crate::single::INFINITY_MAGNITUDE
                &&& min.rank() <= default.rank() <= max.rank()
            },
            ParamKind::Stepped { values, default_index } => default_index < values.names().len(),
        }
    }

    /// The nearest value the control can take.
    pub open spec fn held(self, value: Single) -> Single {
        match self {
            ParamKind::Continuous { min, max, .. } => value.held_within(min, max),
            ParamKind::Stepped { .. } => value.held_within(Single::zero(), Single::one()),
        }
    }

    pub fn hold(self, value: Single) -> (r: Single)
        ensures
            r == self.held(value),
    {
        match self {
            ParamKind::Continuous { min, max, .. } => value.clamp(min, max),
            ParamKind::Stepped { .. } => value.clamp(Single::zero(), Single::one()),
        }
    }

    /// The value a control goes back to: the default, or the default option's index as a number.
    pub open spec fn default_spec(self) -> Single {
        match self {
            ParamKind::Continuous { default, .. } => default,
            ParamKind::Stepped { default_index, .. } => Single::switch(default_index == 1),
        }
    }
}

#[derive(Debug, Clone, Copy)]
pub struct ParamDescriptor {
    pub key: &'static str,
    pub id: ParamId,
    pub name: &'static str,
    pub unit: Unit,
    pub kind: ParamKind,
    pub format: ValueFormat,
    pub smoothing: SmoothingCategory,
}

/// Describes a continuous control; the range and the default are given by their bit patterns.
#[verifier::allow_in_spec]
pub fn continuous(
    key: &'static str,
    name: &'static str,
    unit: Unit,
    range: (u32, u32, u32),
    places: u32,
    smoothing: SmoothingCategory,
) -> ParamDescriptor
    returns
        (ParamDescriptor {
            key,
            id: param::id_of(key@),
            name,
            unit,
            kind: ParamKind::Continuous {
                min: Single { bits: range.0 },
                max: Single { bits: range.1 },
                default: Single { bits: range.2 },
            },
            format: ValueFormat::FixedDecimals { places },
            smoothing,
        }),
{
    ParamDescriptor {
        key,
        id: ParamId::from_key(key),
        name,
        unit,
        kind: ParamKind::Continuous {
            min: Single { bits: range.0 },
            max: Single { bits: range.1 },
            default: Single { bits: range.2 },
        },
        format: ValueFormat::FixedDecimals { places },
        smoothing,
    }
}

/// Describes a discrete choice.
#[verifier::allow_in_spec]
pub fn stepped(
    key: &'static str,
    name: &'static str,
    values: StepValues,
    default_index: usize,
) -> ParamDescriptor
    returns
        (ParamDescriptor {
            key,
            id: param::id_of(key@),
            name,
            unit: Unit::Plain,
            kind: ParamKind::Stepped { values, default_index },
            format: ValueFormat::Named,
            smoothing: SmoothingCategory::Stepped,
        }),
{
    ParamDescriptor {
        key,
        id: ParamId::from_key(key),
        name,
        unit: Unit::Plain,
        kind: ParamKind::Stepped { values, default_index },
        format: ValueFormat::Named,
        smoothing: SmoothingCategory::Stepped,
    }
}

impl ParamDescriptor {
    /// Whether the range and the default, or the options and the default, fit each other.
    pub fn validate(&self) -> (r: bool)
        ensures
            r == self.kind.valid(),
    {
        match self.kind {
            ParamKind::Continuous { min, max, default } => {
                min.less_than(max) && !default.not_a_number() && min.is_finite() && max.is_finite()
                    && !default.less_than(min) && !max.less_than(default)
            },
            ParamKind::Stepped { values, default_index } => default_index < values.count(),
        }
    }

    /// How one option of a discrete choice reads; a continuous control has no options.
    pub fn option_name(&self, index: usize) -> (r: Option<&'static str>)
        ensures
            match self.kind {
                ParamKind::Continuous { .. } => r is None,
                ParamKind::Stepped { values, .. } => r matches Some(s) && s@ == values.names()[if index
                    < values.names().len() {
                    index as int
                } else {
                    values.names().len() - 1
                }],
            },
    {
        match self.kind {
            ParamKind::Continuous { .. } => None,
            ParamKind::Stepped { values, .. } => Some(values.name(index)),
        }
    }
}

/// The default of a control that is declared continuous.
pub fn continuous_default(descriptor: ParamDescriptor) -> (r: Single)
    requires
        descriptor.kind is Continuous,
    ensures
        r == descriptor.kind->default,
{
    match descriptor.kind {
        ParamKind::Continuous { default, .. } => default,
        ParamKind::Stepped { .. } => Single::zero(),
    }
}

/// Whether a control that is declared a choice starts on its second option.
pub fn stepped_default_on(descriptor: ParamDescriptor) -> (r: bool)
    requires
        descriptor.kind is Stepped,
    ensures
        r == (descriptor.kind->default_index == 1),
{
    match descriptor.kind {
        ParamKind::Stepped { default_index, .. } => default_index == 1,
        ParamKind::Continuous { .. } => false,
    }
}

/// The value a control goes back to when it is reset.
pub fn default_value_of(descriptor: ParamDescriptor) -> (r: Single)
    requires
        descriptor.kind matches ParamKind::Stepped { default_index, .. } ==> default_index < 2,
    ensures
        r == descriptor.kind.default_spec(),
{
    match descriptor.kind {
        ParamKind::Continuous { default, .. } => default,
        ParamKind::Stepped { default_index, .. } => Single::switch(default_index == 1),
    }
}

/// What a control holds lies in its range, and is the value itself where that does already; so the
/// default of a control that is described well is held as it is. The default of a choice is on
/// exactly where the choice starts on its second option.
pub proof fn lemma_a_control_holds_its_default(kind: ParamKind, value: Single)
    requires
        kind.valid(),
        !value.is_nan(),
    ensures
        kind.held(kind.default_spec()) == kind.default_spec(),
        kind.held(kind.held(value)) == kind.held(value),
        kind matches ParamKind::Continuous { min, max, default } ==> {
            &&& min.rank() <= kind.held(value).rank() <= max.rank()
            &&& min.rank() <= value.rank() <= max.rank() ==> kind.held(value) == value
            &&& kind.default_spec() == default
        },
        kind matches ParamKind::Stepped { default_index, .. } ==> {
            &&& Single::zero().rank() <= kind.held(value).rank() <= Single::one().rank()
            &&& kind.held(Single::zero()) == Single::zero()
            &&& kind.held(Single::one()) == Single::one()
            &&& Single::zero().rank() <= value.rank() <= Single::one().rank() ==> kind.held(value)
                == value
            &&& kind.default_spec().means_on() == (default_index == 1)
        },
{
}

} // verus!
