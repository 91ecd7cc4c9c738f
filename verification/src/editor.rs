//! The editor of the spectral compressor: which groups it shows, in which
//! rows, and how it labels their parameters.

use vstd::prelude::*;
use crate::hook::{HookView, OverrideHook};
use crate::layout::{compose, rows_of, ColumnPlan, ColumnView, EditorError, PlanView, Row};
use crate::store::ParameterStore;
use crate::tree::{all_known, ParameterTree};
use crate::window::EditorWindowState;

verus! {

/// The editor as it is to be drawn: the window, the heading above the
/// columns, and the rows of columns from top to bottom.
#[derive(Debug)]
pub struct Editor {
    pub window: EditorWindowState,
    pub heading: String,
    pub rows: Vec<Row>,
}

/// The heading of the editor.
pub open spec fn spec_heading() -> Seq<char> {
    "Spectral Compressor"@
}

/// The note at the foot of the threshold column.
pub open spec fn spec_threshold_note() -> Seq<char> {
    "Parameter ranges and overal gain staging are still subject to change. If you use this in a project, make sure to bounce things to audio just in case they'll sound different later."@
}

/// The plan of the editor. The global and the threshold parameters share
/// the upper row, the two compressors the lower one. A compressor's
/// parameters carry the compressor's name in front of their own, and its
/// column shows them without it.
pub open spec fn spec_editor_plan() -> Seq<Seq<PlanView>> {
    seq![
        seq![
            PlanView {
                title: "Globals"@,
                path: seq!["Global"@],
                hook: HookView::Plain,
                note: None,
            },
            PlanView {
                title: "Threshold"@,
                path: seq!["Threshold"@],
                hook: HookView::Plain,
                note: Some(spec_threshold_note()),
            },
        ],
        seq![
            PlanView {
                title: "Upwards"@,
                path: seq!["Compressors"@, "Upwards"@],
                hook: HookView::StripPrefix("Upwards "@),
                note: None,
            },
            PlanView {
                title: "Downwards"@,
                path: seq!["Compressors"@, "Downwards"@],
                hook: HookView::StripPrefix("Downwards "@),
                note: None,
            },
        ],
    ]
}

/// Plans a column for a compressor: the group lies below "Compressors", and
/// the labels drop the compressor's name and the space behind it.
fn compressor_plan(name: &str, prefix: &str) -> (plan: ColumnPlan)
    ensures
        plan@ == (PlanView {
            title: name@,
            path: seq!["Compressors"@, name@],
            hook: HookView::StripPrefix(prefix@),
            note: None,
        }),
{
    let mut path: Vec<String> = Vec::new();
    path.push("Compressors".to_owned());
    path.push(name.to_owned());
    assert(path.deep_view() =~= seq!["Compressors"@, name@]);
    ColumnPlan {
        title: name.to_owned(),
        path,
        hook: OverrideHook::StripPrefix(prefix.to_owned()),
        note: None,
    }
}

/// Plans a column for a group directly below the root, labelled with the
/// full parameter names.
fn plain_plan(title: &str, group: &str, note: Option<String>) -> (plan: ColumnPlan)
    ensures
        plan@ == (PlanView {
            title: title@,
            path: seq![group@],
            hook: HookView::Plain,
            note: crate::layout::text_of(note),
        }),
{
    let mut path: Vec<String> = Vec::new();
    path.push(group.to_owned());
    assert(path.deep_view() =~= seq![group@]);
    ColumnPlan { title: title.to_owned(), path, hook: OverrideHook::Plain, note }
}

/// The plan of the editor, row by row.
pub fn editor_plan() -> (plan: Vec<Vec<ColumnPlan>>)
    ensures
        plan.deep_view() == spec_editor_plan(),
{
    let note = "Parameter ranges and overal gain staging are still subject to change. If you use this in a project, make sure to bounce things to audio just in case they'll sound different later.".to_owned();
    let mut upper: Vec<ColumnPlan> = Vec::new();
    upper.push(plain_plan("Globals", "Global", None));
    upper.push(plain_plan("Threshold", "Threshold", Some(note)));
    let mut lower: Vec<ColumnPlan> = Vec::new();
    lower.push(compressor_plan("Upwards", "Upwards "));
    lower.push(compressor_plan("Downwards", "Downwards "));
    proof {
        assert(upper.deep_view() =~= spec_editor_plan()[0]);
        assert(lower.deep_view() =~= spec_editor_plan()[1]);
    }
    let mut plan: Vec<Vec<ColumnPlan>> = Vec::new();
    plan.push(upper);
    plan.push(lower);
    assert(plan.deep_view() =~= spec_editor_plan());
    plan
}

/// Builds the editor over the parameter tree: the heading, and the planned
/// rows of columns with a bound control for every parameter. The window
/// takes the state that is handed in.
///
/// Fails if a planned group is missing from the tree, or if a compressor
/// parameter lacks the prefix that its column strips.
pub fn create(tree: &ParameterTree, store: &ParameterStore, editor_state: EditorWindowState) -> (outcome:
    Result<Editor, EditorError>)
    requires
        store@.wf(),
        all_known(tree.leaves(), store@),
    ensures
        match outcome {
            Ok(editor) => {
                &&& editor.window == editor_state
                &&& editor.heading@ == spec_heading()
                &&& rows_of(spec_editor_plan(), tree.root(), store@) == Ok::<
                    Seq<Seq<ColumnView>>,
                    EditorError,
                >(editor.rows.deep_view())
            },
            Err(error) => rows_of(spec_editor_plan(), tree.root(), store@) == Err::<
                Seq<Seq<ColumnView>>,
                EditorError,
            >(error),
        },
{
    let plan = editor_plan();
    match compose(&plan, tree, store) {
        Ok(rows) => Ok(
            Editor { window: editor_state, heading: "Spectral Compressor".to_owned(), rows },
        ),
        Err(error) => Err(error),
    }
}

} // verus!
