//! Parameter descriptors: the static metadata of one automatable value.
//!
//! Every parameter value is handled as an integer. A continuous parameter
//! counts in ticks: with `decimals` decimal places, one unit is ten to the
//! power of `decimals` ticks, so that `-300` with one decimal place stands
//! for `-30.0`. A stepped parameter holds the index of the chosen entry,
//! and a boolean parameter holds `0` or `1`.

use vstd::prelude::*;

verus! {

/// The stable identifier of a parameter.
pub type ParamId = u32;

/// The largest number of decimal places of a continuous parameter.
pub const MAX_DECIMALS: u8 = 18;

/// What kind of value a parameter holds, and which values are admissible.
#[derive(Debug)]
pub enum ValueKind {
    /// A value between `min` and `max`, both included, counted in ticks of
    /// `decimals` decimal places and measured in `unit`.
    Continuous { min: i64, max: i64, default: i64, decimals: u8, unit: String },
    /// One of a list of named choices, kept in the order they were declared.
    Stepped { choices: Vec<String> },
    /// An on/off switch.
    Boolean,
}

/// The mathematical content of a [`ValueKind`].
pub ghost enum KindView {
    Continuous { min: int, max: int, default: int, decimals: nat, unit: Seq<char> },
    Stepped { choices: Seq<Seq<char>> },
    Boolean,
}

impl KindView {
    /// A continuous range must contain its default and have no more than
    /// [`MAX_DECIMALS`] decimal places, and a stepped parameter must offer
    /// at least one choice.
    pub open spec fn wf(self) -> bool {
        match self {
            KindView::Continuous { min, max, default, decimals, .. } => min <= default <= max
                && decimals <= MAX_DECIMALS,
            KindView::Stepped { choices } => 1 <= choices.len() <= i64::MAX,
            KindView::Boolean => true,
        }
    }

    /// The smallest admissible value.
    pub open spec fn lowest(self) -> int {
        match self {
            KindView::Continuous { min, .. } => min,
            KindView::Stepped { .. } => 0,
            KindView::Boolean => 0,
        }
    }

    /// The largest admissible value.
    pub open spec fn highest(self) -> int {
        match self {
            KindView::Continuous { max, .. } => max,
            KindView::Stepped { choices } => choices.len() - 1,
            KindView::Boolean => 1,
        }
    }

    /// The value a parameter of this kind starts with.
    pub open spec fn initial(self) -> int {
        match self {
            KindView::Continuous { default, .. } => default,
            KindView::Stepped { .. } => 0,
            KindView::Boolean => 0,
        }
    }

    /// Whether `value` may be stored in a parameter of this kind.
    pub open spec fn admits(self, value: int) -> bool {
        self.lowest() <= value <= self.highest()
    }

    /// The admissible value nearest to `value`.
    pub open spec fn clamped(self, value: int) -> int {
        if value < self.lowest() {
            self.lowest()
        } else if value > self.highest() {
            self.highest()
        } else {
            value
        }
    }
}

impl View for ValueKind {
    type V = KindView;

    open spec fn view(&self) -> KindView {
        match *self {
            ValueKind::Continuous { min, max, default, decimals, unit } => KindView::Continuous {
                min: min as int,
                max: max as int,
                default: default as int,
                decimals: decimals as nat,
                unit: unit@,
            },
            ValueKind::Stepped { choices } => KindView::Stepped { choices: choices.deep_view() },
            ValueKind::Boolean => KindView::Boolean,
        }
    }
}

/// Copies a list of names.
pub fn copy_names(names: &Vec<String>) -> (copy: Vec<String>)
    ensures
        copy.deep_view() == names.deep_view(),
{
    let mut copy: Vec<String> = Vec::new();
    let mut i: usize = 0;
    while i < names.len()
        invariant
            i <= names.len(),
            copy.len() == i,
            forall|k: int| 0 <= k < i ==> copy[k]@ == names[k]@,
        decreases names.len() - i,
    {
        copy.push(names[i].clone());
        i += 1;
    }
    assert(copy.deep_view() =~= names.deep_view());
    copy
}

impl ValueKind {
    /// Decides whether the kind describes a usable range of values.
    pub fn is_well_formed(&self) -> (ok: bool)
        ensures
            ok == self@.wf(),
    {
        match self {
            ValueKind::Continuous { min, max, default, decimals, .. } => *min <= *default
                && *default <= *max && *decimals <= MAX_DECIMALS,
            ValueKind::Stepped { choices } => {
                proof {
                    assert(choices.deep_view().len() == choices.len());
                }
                choices.len() >= 1 && choices.len() as u64 <= 0x7fff_ffff_ffff_ffffu64
            },
            ValueKind::Boolean => true,
        }
    }

    /// The smallest admissible value.
    pub fn lowest(&self) -> (value: i64)
        ensures
            value == self@.lowest(),
    {
        match self {
            ValueKind::Continuous { min, .. } => *min,
            ValueKind::Stepped { .. } => 0,
            ValueKind::Boolean => 0,
        }
    }

    /// The largest admissible value.
    pub fn highest(&self) -> (value: i64)
        requires
            self@.wf(),
        ensures
            value == self@.highest(),
    {
        match self {
            ValueKind::Continuous { max, .. } => *max,
            ValueKind::Stepped { choices } => {
                proof {
                    assert(choices.deep_view().len() == choices.len());
                }
                (choices.len() - 1) as i64
            },
            ValueKind::Boolean => 1,
        }
    }

    /// The value a parameter of this kind starts with.
    pub fn initial(&self) -> (value: i64)
        ensures
            value == self@.initial(),
    {
        match self {
            ValueKind::Continuous { default, .. } => *default,
            ValueKind::Stepped { .. } => 0,
            ValueKind::Boolean => 0,
        }
    }

    /// Moves `value` to the nearest admissible value.
    pub fn clamp(&self, value: i64) -> (nearest: i64)
        requires
            self@.wf(),
        ensures
            nearest == self@.clamped(value as int),
            self@.admits(nearest as int),
            self@.admits(value as int) ==> nearest == value,
    {
        let low: i64 = self.lowest();
        let high: i64 = self.highest();
        if value < low {
            low
        } else if value > high {
            high
        } else {
            value
        }
    }

    /// Copies the kind.
    pub fn duplicate(&self) -> (copy: ValueKind)
        ensures
            copy@ == self@,
    {
        match self {
            ValueKind::Continuous { min, max, default, decimals, unit } => ValueKind::Continuous {
                min: *min,
                max: *max,
                default: *default,
                decimals: *decimals,
                unit: unit.clone(),
            },
            ValueKind::Stepped { choices } => ValueKind::Stepped { choices: copy_names(choices) },
            ValueKind::Boolean => ValueKind::Boolean,
        }
    }
}

/// The static metadata of one parameter. Neither the identifier nor the kind
/// changes while the plugin instance lives; only the stored value does.
#[derive(Debug)]
pub struct ParameterDescriptor {
    pub id: ParamId,
    pub name: String,
    pub kind: ValueKind,
}

/// The mathematical content of a [`ParameterDescriptor`].
pub ghost struct DescriptorView {
    pub id: ParamId,
    pub name: Seq<char>,
    pub kind: KindView,
}

impl View for ParameterDescriptor {
    type V = DescriptorView;

    open spec fn view(&self) -> DescriptorView {
        DescriptorView { id: self.id, name: self.name@, kind: self.kind@ }
    }
}

impl DeepView for ParameterDescriptor {
    type V = DescriptorView;

    open spec fn deep_view(&self) -> DescriptorView {
        self@
    }
}

impl ParameterDescriptor {
    /// Copies the descriptor.
    pub fn duplicate(&self) -> (copy: ParameterDescriptor)
        ensures
            copy@ == self@,
    {
        ParameterDescriptor {
            id: self.id,
            name: self.name.clone(),
            kind: self.kind.duplicate(),
        }
    }
}

} // verus!
