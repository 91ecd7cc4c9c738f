//! The widget dispatcher: from a parameter descriptor to the control that
//! edits it.
//!
//! The control is chosen from the kind of the parameter alone, never from
//! its identity. A control changes the store in one way only: it answers a
//! gesture with a value inside its range and writes that value to the slot
//! of its parameter.

use vstd::prelude::*;
use crate::param::{
    copy_names, KindView, ParamId, ParameterDescriptor, ValueKind, MAX_DECIMALS,
};
use crate::store::{lemma_position_unique, ParameterStore, StoreView};
use crate::tree::{all_known, ParameterTree};

verus! {

/// A full drag across a slider is divided into this many steps.
pub const DRAG_DIVISIONS: i64 = 100;

/// The visual control that edits one parameter.
#[derive(Debug)]
pub enum Widget {
    /// A numeric control that can be dragged or typed into.
    Slider { min: i64, max: i64, default: i64, step: i64, decimals: u8, unit: String },
    /// A selector that steps through named choices in their declared order.
    Selector { choices: Vec<String> },
    /// An on/off control.
    Toggle,
}

/// What the user does to a control.
#[derive(Clone, Copy, Debug, PartialEq, Eq, Structural)]
pub enum Gesture {
    /// Drags a slider by a number of steps, upwards if positive.
    Drag(i64),
    /// Types a value, or jumps to the choice with that index.
    Enter(i64),
    /// Moves a selector to the following choice, from the last to the first.
    Next,
    /// Moves a selector to the preceding choice, from the first to the last.
    Previous,
    /// Flips a toggle.
    Flip,
    /// Goes back to the initial value.
    Reset,
}

/// The mathematical content of a [`Widget`].
pub ghost enum WidgetView {
    Slider { min: int, max: int, default: int, step: int, decimals: nat, unit: Seq<char> },
    Selector { choices: Seq<Seq<char>> },
    Toggle,
}

/// The size of one drag step on a slider over `min..=max`: a hundredth of
/// the range, and at least one tick.
pub open spec fn drag_step(min: int, max: int) -> int {
    if max - min >= DRAG_DIVISIONS {
        (max - min) / (DRAG_DIVISIONS as int)
    } else {
        1
    }
}

/// The widget that edits a parameter of the given kind.
pub open spec fn widget_for(kind: KindView) -> WidgetView {
    match kind {
        KindView::Continuous { min, max, default, decimals, unit } => WidgetView::Slider {
            min,
            max,
            default,
            step: drag_step(min, max),
            decimals,
            unit,
        },
        KindView::Stepped { choices } => WidgetView::Selector { choices },
        KindView::Boolean => WidgetView::Toggle,
    }
}

impl WidgetView {
    /// The kind of value that the widget edits.
    pub open spec fn kind(self) -> KindView {
        match self {
            WidgetView::Slider { min, max, default, decimals, unit, .. } => KindView::Continuous {
                min,
                max,
                default,
                decimals,
                unit,
            },
            WidgetView::Selector { choices } => KindView::Stepped { choices },
            WidgetView::Toggle => KindView::Boolean,
        }
    }

    /// The range is that of a well-formed kind, and a slider moves by at
    /// least one tick per step.
    pub open spec fn wf(self) -> bool {
        &&& self.kind().wf()
        &&& self matches WidgetView::Slider { step, .. } ==> step >= 1
    }

    /// The value that a gesture asks for, before it is held to the range.
    /// A gesture that the widget does not know leaves the value as it is.
    pub open spec fn proposal(self, current: int, gesture: Gesture) -> int {
        match self {
            WidgetView::Slider { default, step, .. } => match gesture {
                Gesture::Drag(steps) => current + steps * step,
                Gesture::Enter(value) => value as int,
                Gesture::Reset => default,
                _ => current,
            },
            WidgetView::Selector { choices } => match gesture {
                Gesture::Next => if current >= choices.len() - 1 {
                    0
                } else {
                    current + 1
                },
                Gesture::Previous => if current <= 0 {
                    choices.len() - 1
                } else {
                    current - 1
                },
                Gesture::Enter(index) => index as int,
                Gesture::Reset => 0,
                _ => current,
            },
            WidgetView::Toggle => match gesture {
                Gesture::Flip => if current == 0 {
                    1
                } else {
                    0
                },
                Gesture::Enter(value) => value as int,
                Gesture::Reset => 0,
                _ => current,
            },
        }
    }

    /// The value that the widget commits in answer to a gesture: the value
    /// asked for, moved to the nearest value of the range.
    pub open spec fn response(self, current: int, gesture: Gesture) -> int {
        self.kind().clamped(self.proposal(current, gesture))
    }
}

impl View for Widget {
    type V = WidgetView;

    open spec fn view(&self) -> WidgetView {
        match *self {
            Widget::Slider { min, max, default, step, decimals, unit } => WidgetView::Slider {
                min: min as int,
                max: max as int,
                default: default as int,
                step: step as int,
                decimals: decimals as nat,
                unit: unit@,
            },
            Widget::Selector { choices } => WidgetView::Selector { choices: choices.deep_view() },
            Widget::Toggle => WidgetView::Toggle,
        }
    }
}

/// Computes the size of one drag step on a slider over `min..=max`.
pub fn step_for(min: i64, max: i64) -> (step: i64)
    ensures
        step == drag_step(min as int, max as int),
        step >= 1,
{
    let span: i128 = max as i128 - min as i128;
    if span >= DRAG_DIVISIONS as i128 {
        (span / (DRAG_DIVISIONS as i128)) as i64
    } else {
        1
    }
}

impl Widget {
    /// Decides whether the widget has a usable range and step.
    pub fn is_well_formed(&self) -> (ok: bool)
        ensures
            ok == self@.wf(),
    {
        match self {
            Widget::Slider { min, max, default, step, decimals, .. } => *min <= *default
                && *default <= *max && *decimals <= MAX_DECIMALS && *step >= 1,
            Widget::Selector { choices } => {
                proof {
                    assert(choices.deep_view().len() == choices.len());
                }
                choices.len() >= 1 && choices.len() as u64 <= 0x7fff_ffff_ffff_ffffu64
            },
            Widget::Toggle => true,
        }
    }

    /// Holds a requested value to the range of the widget.
    fn hold(&self, requested: i128) -> (held: i64)
        requires
            self@.wf(),
        ensures
            held == self@.kind().clamped(requested as int),
            self@.kind().admits(held as int),
    {
        let (low, high): (i64, i64) = match self {
            Widget::Slider { min, max, .. } => (*min, *max),
            Widget::Selector { choices } => {
                proof {
                    assert(choices.deep_view().len() == choices.len());
                }
                (0, (choices.len() - 1) as i64)
            },
            Widget::Toggle => (0, 1),
        };
        if requested < low as i128 {
            low
        } else if requested > high as i128 {
            high
        } else {
            requested as i64
        }
    }

    /// The value that the widget commits when the parameter holds `current`
    /// and the user makes `gesture`. It always lies in the widget's range.
    pub fn respond(&self, current: i64, gesture: Gesture) -> (committed: i64)
        requires
            self@.wf(),
        ensures
            committed == self@.response(current as int, gesture),
            self@.kind().admits(committed as int),
    {
        let requested: i128 = match self {
            Widget::Slider { default, step, .. } => match gesture {
                Gesture::Drag(steps) => {
                    let size: i64 = *step;
                    assert(-0x4000_0000_0000_0000_0000_0000_0000_0000 <= steps * size
                        <= 0x4000_0000_0000_0000_0000_0000_0000_0000) by (nonlinear_arith)
                        requires
                            -0x8000_0000_0000_0000 <= steps <= 0x8000_0000_0000_0000,
                            0 <= size <= 0x8000_0000_0000_0000,
                    ;
                    current as i128 + (steps as i128) * (size as i128)
                },
                Gesture::Enter(value) => value as i128,
                Gesture::Reset => *default as i128,
                _ => current as i128,
            },
            Widget::Selector { choices } => {
                proof {
                    assert(choices.deep_view().len() == choices.len());
                }
                match gesture {
                    Gesture::Next => if current as i128 >= choices.len() as i128 - 1 {
                        0
                    } else {
                        current as i128 + 1
                    },
                    Gesture::Previous => if current <= 0 {
                        choices.len() as i128 - 1
                    } else {
                        current as i128 - 1
                    },
                    Gesture::Enter(index) => index as i128,
                    Gesture::Reset => 0,
                    _ => current as i128,
                }
            },
            Widget::Toggle => match gesture {
                Gesture::Flip => if current == 0 {
                    1
                } else {
                    0
                },
                Gesture::Enter(value) => value as i128,
                Gesture::Reset => 0,
                _ => current as i128,
            },
        };
        self.hold(requested)
    }
}

/// A control together with the parameter that it is bound to.
#[derive(Debug)]
pub struct BoundControl {
    pub param: ParamId,
    pub widget: Widget,
}

impl BoundControl {
    /// The control edits a parameter of `store` and has the widget that
    /// belongs to the kind of that parameter.
    pub open spec fn bound_to(self, store: StoreView) -> bool {
        &&& store.contains(self.param)
        &&& self.widget@ == widget_for(store.descriptor(self.param).kind)
    }

    /// The value that the control shows: the current value of its parameter.
    pub fn shown(&self, store: &ParameterStore) -> (value: i64)
        requires
            store@.wf(),
            store@.contains(self.param),
        ensures
            value == store@.value(self.param),
    {
        store.read(self.param)
    }

    /// Answers a gesture: works out the value to commit from the current
    /// value of the parameter, writes it to the slot of the parameter and
    /// returns what the store now holds there. No other slot changes.
    pub fn commit(&self, store: &mut ParameterStore, gesture: Gesture) -> (committed: i64)
        requires
            old(store)@.wf(),
            old(store)@.contains(self.param),
            self.widget@.wf(),
        ensures
            final(store)@.wf(),
            final(store)@ == old(store)@.written(
                self.param,
                self.widget@.response(old(store)@.value(self.param), gesture),
            ),
            committed == final(store)@.value(self.param),
            old(store)@.descriptor(self.param).kind.admits(committed as int),
            forall|other: ParamId| #[trigger]
                old(store)@.contains(other) ==> {
                    &&& final(store)@.contains(other)
                    &&& final(store)@.descriptor(other) == old(store)@.descriptor(other)
                    &&& final(store)@.group(other) == old(store)@.group(other)
                    &&& other != self.param ==> final(store)@.value(other) == old(store)@.value(
                        other,
                    )
                },
            self.bound_to(old(store)@) ==> committed == self.widget@.response(
                old(store)@.value(self.param),
                gesture,
            ),
    {
        let current: i64 = store.read(self.param);
        let answer: i64 = self.widget.respond(current, gesture);
        store.write(self.param, answer)
    }
}

/// Chooses the control for a parameter from its kind and binds it to the
/// parameter: a slider for a continuous value, a selector for a stepped one,
/// a toggle for a boolean.
pub fn dispatch(descriptor: &ParameterDescriptor) -> (control: BoundControl)
    ensures
        control.param == descriptor.id,
        control.widget@ == widget_for(descriptor@.kind),
        descriptor@.kind.wf() ==> control.widget@.wf(),
{
    let widget = match &descriptor.kind {
        ValueKind::Continuous { min, max, default, decimals, unit } => Widget::Slider {
            min: *min,
            max: *max,
            default: *default,
            step: step_for(*min, *max),
            decimals: *decimals,
            unit: unit.clone(),
        },
        ValueKind::Stepped { choices } => Widget::Selector { choices: copy_names(choices) },
        ValueKind::Boolean => Widget::Toggle,
    };
    BoundControl { param: descriptor.id, widget }
}

/// Whatever the gesture and whatever the parameter holds, the value that
/// the control of a well-formed kind commits is admissible. For a continuous
/// parameter it lies between `min` and `max`.
pub proof fn lemma_response_in_range(kind: KindView, current: int, gesture: Gesture)
    requires
        kind.wf(),
    ensures
        kind.admits(widget_for(kind).response(current, gesture)),
        kind matches KindView::Continuous { min, max, .. } ==> min <= widget_for(kind).response(
            current,
            gesture,
        ) <= max,
{
}

/// A value that is written through the control of a parameter is read back
/// unchanged: after the write the store holds, in the slot of the
/// parameter, the value that the control committed. The descriptors and the
/// values of all other parameters stay as they were.
pub proof fn lemma_edit_read_back(store: StoreView, id: ParamId, current: int, gesture: Gesture)
    requires
        store.wf(),
        store.contains(id),
    ensures
        ({
            let committed = widget_for(store.descriptor(id).kind).response(current, gesture);
            let after = store.written(id, committed);
            &&& after.wf()
            &&& after.descriptors == store.descriptors
            &&& after.contains(id)
            &&& after.value(id) == committed
            &&& forall|other: ParamId|
                other != id && #[trigger] store.contains(other) ==> after.value(other)
                    == store.value(other)
        }),
{
    let kind = store.descriptor(id).kind;
    let committed = widget_for(kind).response(current, gesture);
    let after = store.written(id, committed);
    let slot = store.position(id);
    assert(store.holds_at(id, slot));
    lemma_response_in_range(kind, current, gesture);
    assert(after.holds_at(id, slot));
    lemma_position_unique(after, id, slot);
    assert forall|other: ParamId| other != id && #[trigger] store.contains(other) implies after.value(
        other,
    ) == store.value(other) by {
        let there = store.position(other);
        assert(store.holds_at(other, there));
        assert(after.holds_at(other, there));
        lemma_position_unique(after, other, there);
    }
}

/// Every parameter that the tree reaches can be edited and read back: the
/// control that the dispatcher chooses for its descriptor commits a value
/// that the store then holds in the slot of that parameter.
pub proof fn lemma_reachable_round_trip(
    tree: ParameterTree,
    store: StoreView,
    k: int,
    gesture: Gesture,
)
    requires
        store.wf(),
        all_known(tree.leaves(), store),
        0 <= k < tree.leaves().len(),
    ensures
        ({
            let id = tree.leaves()[k];
            let committed = widget_for(store.descriptor(id).kind).response(
                store.value(id),
                gesture,
            );
            &&& store.contains(id)
            &&& store.descriptor(id).kind.admits(committed)
            &&& store.written(id, committed).value(id) == committed
        }),
{
    let id = tree.leaves()[k];
    assert(store.contains(id));
    let slot = store.position(id);
    assert(store.holds_at(id, slot));
    lemma_response_in_range(store.descriptor(id).kind, store.value(id), gesture);
    lemma_edit_read_back(store, id, store.value(id), gesture);
}

} // verus!
