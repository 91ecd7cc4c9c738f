//! The override hook: a per-group rule for how a parameter is labelled.
//!
//! Two sibling groups may hold parameters with the same meaning. Their
//! descriptors keep full names such as "Upwards Threshold", while the
//! editor shows each under the title of its group and without the prefix.
//! A hook states the prefix that every name in its group must carry. A name
//! without it is a breach of the naming convention and is reported, never
//! shown as it is.

use vstd::prelude::*;
use crate::dispatch::{dispatch, widget_for, BoundControl, WidgetView};
use crate::param::{DescriptorView, ParamId, ParameterDescriptor};

verus! {

/// How the parameters of a group are labelled.
#[derive(Debug)]
pub enum OverrideHook {
    /// The label is the parameter's name.
    Plain,
    /// The label is the parameter's name without this prefix.
    StripPrefix(String),
}

/// The mathematical content of an [`OverrideHook`].
pub ghost enum HookView {
    Plain,
    StripPrefix(Seq<char>),
}

/// A breach of the naming convention that a hook relies on.
#[derive(Clone, Copy, Debug, PartialEq, Eq, Structural)]
pub enum ContractViolation {
    /// The name of this parameter does not start with the prefix of its group.
    MissingPrefix { param: ParamId },
}

/// One line of a column: a label and the control beside it.
#[derive(Debug)]
pub struct Entry {
    pub label: String,
    pub control: BoundControl,
}

/// The mathematical content of an [`Entry`].
pub ghost struct EntryView {
    pub label: Seq<char>,
    pub param: ParamId,
    pub widget: WidgetView,
}

impl View for Entry {
    type V = EntryView;

    open spec fn view(&self) -> EntryView {
        EntryView { label: self.label@, param: self.control.param, widget: self.control.widget@ }
    }
}

impl DeepView for Entry {
    type V = EntryView;

    open spec fn deep_view(&self) -> EntryView {
        self@
    }
}

impl View for OverrideHook {
    type V = HookView;

    open spec fn view(&self) -> HookView {
        match *self {
            OverrideHook::Plain => HookView::Plain,
            OverrideHook::StripPrefix(prefix) => HookView::StripPrefix(prefix@),
        }
    }
}

impl HookView {
    /// Whether the hook can label a parameter called `name`.
    pub open spec fn accepts(self, name: Seq<char>) -> bool {
        match self {
            HookView::Plain => true,
            HookView::StripPrefix(prefix) => prefix.is_prefix_of(name),
        }
    }

    /// The label of a parameter called `name`.
    pub open spec fn label(self, name: Seq<char>) -> Seq<char> {
        match self {
            HookView::Plain => name,
            HookView::StripPrefix(prefix) => name.skip(prefix.len() as int),
        }
    }

    /// The line that the hook renders for a parameter: its label, and the
    /// control that the dispatcher chooses for it.
    pub open spec fn entry(self, descriptor: DescriptorView) -> EntryView {
        EntryView {
            label: self.label(descriptor.name),
            param: descriptor.id,
            widget: widget_for(descriptor.kind),
        }
    }

    /// What rendering a parameter gives: its line, or the breach of the
    /// naming convention.
    pub open spec fn render(self, descriptor: DescriptorView) -> Result<
        EntryView,
        ContractViolation,
    > {
        if self.accepts(descriptor.name) {
            Ok(self.entry(descriptor))
        } else {
            Err(ContractViolation::MissingPrefix { param: descriptor.id })
        }
    }
}

/// Calls `str::strip_prefix`. Its documentation says that the call returns
/// the rest of `name` behind `prefix` when `name` starts with `prefix`, and
/// nothing otherwise; the contract says the same of the characters.
#[verifier::external_body]
fn strip_prefix<'a>(name: &'a str, prefix: &str) -> (rest: Option<&'a str>)
    ensures
        match rest {
            Some(tail) => prefix@.is_prefix_of(name@) && tail@ == name@.skip(prefix@.len() as int),
            None => !prefix@.is_prefix_of(name@),
        },
{
    name.strip_prefix(prefix)
}

impl OverrideHook {
    /// Labels a parameter called `name`, or reports that the name breaks
    /// the convention of the hook.
    pub fn label(&self, name: &str) -> (label: Option<String>)
        ensures
            match label {
                Some(text) => self@.accepts(name@) && text@ == self@.label(name@),
                None => !self@.accepts(name@),
            },
    {
        match self {
            OverrideHook::Plain => Some(name.to_owned()),
            OverrideHook::StripPrefix(prefix) => match strip_prefix(name, prefix.as_str()) {
                Some(tail) => Some(tail.to_owned()),
                None => None,
            },
        }
    }

    /// Renders one parameter: the label comes from the hook, the control
    /// from the dispatcher.
    pub fn render(&self, descriptor: &ParameterDescriptor) -> (outcome: Result<
        Entry,
        ContractViolation,
    >)
        ensures
            match outcome {
                Ok(entry) => self@.render(descriptor@) == Ok::<EntryView, ContractViolation>(
                    entry@,
                ),
                Err(violation) => self@.render(descriptor@) == Err::<
                    EntryView,
                    ContractViolation,
                >(violation),
            },
            descriptor@.kind.wf() && outcome is Ok ==> outcome->Ok_0.control.widget@.wf(),
    {
        match self.label(descriptor.name.as_str()) {
            Some(label) => Ok(Entry { label, control: dispatch(descriptor) }),
            None => Err(ContractViolation::MissingPrefix { param: descriptor.id }),
        }
    }
}

/// The label of a name that starts with the prefix of its group is the
/// name with exactly that prefix removed.
pub proof fn lemma_prefix_removed(prefix: Seq<char>, rest: Seq<char>)
    ensures
        HookView::StripPrefix(prefix).accepts(prefix + rest),
        HookView::StripPrefix(prefix).label(prefix + rest) == rest,
{
    let name = prefix + rest;
    assert(name.subrange(0, prefix.len() as int) =~= prefix);
    assert(name.skip(prefix.len() as int) =~= rest);
}

/// A parameter whose name lacks the prefix of its group is never given a
/// label: rendering it reports the breach and names the parameter.
pub proof fn lemma_missing_prefix_reported(prefix: Seq<char>, descriptor: DescriptorView)
    requires
        !prefix.is_prefix_of(descriptor.name),
    ensures
        HookView::StripPrefix(prefix).render(descriptor) == Err::<EntryView, ContractViolation>(
            ContractViolation::MissingPrefix { param: descriptor.id },
        ),
{
}

} // verus!
