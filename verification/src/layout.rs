//! The layout composer: named groups arranged in rows of fixed-width
//! columns.
//!
//! Which groups share a row is decided by the author of the editor, not
//! worked out from the size of the content. A column carries a title at its
//! top and, stacked beneath it, one line for each parameter of its group.

use vstd::prelude::*;
use crate::hook::{ContractViolation, Entry, EntryView, HookView, OverrideHook};
use crate::param::ParamId;
use crate::store::{ParameterStore, StoreView};
use crate::tree::{all_known, lemma_descend_leaves, ParameterGroup, ParameterTree};

verus! {

/// The width of every column, in logical pixels.
pub const COLUMN_WIDTH: u32 = 330;

/// The results in order if all succeeded, else the first error.
pub open spec fn collected<T, E>(results: Seq<Result<T, E>>) -> Result<Seq<T>, E>
    decreases results.len(),
{
    if results.len() == 0 {
        Ok(Seq::empty())
    } else {
        match collected(results.drop_last()) {
            Err(error) => Err(error),
            Ok(items) => match results.last() {
                Ok(item) => Ok(items.push(item)),
                Err(error) => Err(error),
            },
        }
    }
}

/// An error among the first `n` results is the error of the whole list.
pub proof fn lemma_collected_error<T, E>(results: Seq<Result<T, E>>, n: int)
    requires
        0 <= n <= results.len(),
        collected(results.take(n)) is Err,
    ensures
        collected(results) == collected(results.take(n)),
    decreases results.len() - n,
{
    if n < results.len() {
        let next = results.take(n + 1);
        assert(next.drop_last() =~= results.take(n));
        lemma_collected_error(results, n + 1);
    } else {
        assert(results.take(n) =~= results);
    }
}

/// One more success extends the collected prefix by its item.
pub proof fn lemma_collected_step<T, E>(results: Seq<Result<T, E>>, n: int)
    requires
        0 <= n < results.len(),
    ensures
        collected(results.take(n + 1)) == match collected(results.take(n)) {
            Err(error) => Err::<Seq<T>, E>(error),
            Ok(items) => match results[n] {
                Ok(item) => Ok(items.push(item)),
                Err(error) => Err(error),
            },
        },
{
    let next = results.take(n + 1);
    assert(next.drop_last() =~= results.take(n));
    assert(next.last() == results[n]);
}

/// What a column is to show: its title, where its group lies in the tree,
/// how its parameters are labelled, and a note to print at its foot.
#[derive(Debug)]
pub struct ColumnPlan {
    pub title: String,
    pub path: Vec<String>,
    pub hook: OverrideHook,
    pub note: Option<String>,
}

/// The mathematical content of a [`ColumnPlan`].
pub ghost struct PlanView {
    pub title: Seq<char>,
    pub path: Seq<Seq<char>>,
    pub hook: HookView,
    pub note: Option<Seq<char>>,
}

/// The characters of an optional text.
pub open spec fn text_of(text: Option<String>) -> Option<Seq<char>> {
    match text {
        Some(content) => Some(content@),
        None => None,
    }
}

impl View for ColumnPlan {
    type V = PlanView;

    open spec fn view(&self) -> PlanView {
        PlanView {
            title: self.title@,
            path: self.path.deep_view(),
            hook: self.hook@,
            note: text_of(self.note),
        }
    }
}

impl DeepView for ColumnPlan {
    type V = PlanView;

    open spec fn deep_view(&self) -> PlanView {
        self@
    }
}

/// A column: a title, and beneath it the lines of its parameters from top
/// to bottom.
#[derive(Debug)]
pub struct Column {
    pub title: String,
    pub width: u32,
    pub entries: Vec<Entry>,
    pub note: Option<String>,
}

/// The mathematical content of a [`Column`].
pub ghost struct ColumnView {
    pub title: Seq<char>,
    pub width: int,
    pub entries: Seq<EntryView>,
    pub note: Option<Seq<char>>,
}

impl View for Column {
    type V = ColumnView;

    open spec fn view(&self) -> ColumnView {
        ColumnView {
            title: self.title@,
            width: self.width as int,
            entries: self.entries.deep_view(),
            note: text_of(self.note),
        }
    }
}

impl DeepView for Column {
    type V = ColumnView;

    open spec fn deep_view(&self) -> ColumnView {
        self@
    }
}

/// A row: columns from left to right.
#[derive(Debug)]
pub struct Row {
    pub columns: Vec<Column>,
}

impl View for Row {
    type V = Seq<ColumnView>;

    open spec fn view(&self) -> Seq<ColumnView> {
        self.columns.deep_view()
    }
}

impl DeepView for Row {
    type V = Seq<ColumnView>;

    open spec fn deep_view(&self) -> Seq<ColumnView> {
        self@
    }
}

/// What rendering each of `leaves` with `hook` gives, in order.
pub open spec fn entry_results(hook: HookView, store: StoreView, leaves: Seq<ParamId>) -> Seq<
    Result<EntryView, ContractViolation>,
> {
    Seq::new(leaves.len(), |k: int| hook.render(store.descriptor(leaves[k])))
}

/// The column that `plan` describes for `group`: one line for each parameter
/// of the group in display order, or the first breach of the naming
/// convention in that order.
pub open spec fn column_of(plan: PlanView, group: ParameterGroup, store: StoreView) -> Result<
    ColumnView,
    ContractViolation,
> {
    match collected(entry_results(plan.hook, store, group.leaves())) {
        Ok(entries) => Ok(
            ColumnView { title: plan.title, width: COLUMN_WIDTH as int, entries, note: plan.note },
        ),
        Err(violation) => Err(violation),
    }
}

/// Copies an optional text.
fn copy_text(text: &Option<String>) -> (copy: Option<String>)
    ensures
        text_of(copy) == text_of(*text),
{
    match text {
        Some(content) => Some(content.clone()),
        None => None,
    }
}

/// Builds the column that `plan` describes for `group`. The lines stand in
/// the display order of the group. Each line has the label that the plan's
/// hook gives the parameter and the control that the dispatcher chooses for
/// it.
pub fn make_column(plan: &ColumnPlan, group: &ParameterGroup, store: &ParameterStore) -> (outcome:
    Result<Column, ContractViolation>)
    requires
        store@.wf(),
        all_known(group.leaves(), store@),
    ensures
        match outcome {
            Ok(column) => column_of(plan@, *group, store@) == Ok::<ColumnView, ContractViolation>(
                column@,
            ),
            Err(violation) => column_of(plan@, *group, store@) == Err::<
                ColumnView,
                ContractViolation,
            >(violation),
        },
        outcome matches Ok(column) ==> forall|k: int|
            0 <= k < column.entries.len() ==> (#[trigger] column.entries[k]).control.widget@.wf(),
{
    let ids = group.walk();
    let ghost results = entry_results(plan@.hook, store@, ids@);
    let mut entries: Vec<Entry> = Vec::new();
    let mut k: usize = 0;
    proof {
        assert(results.take(0) =~= Seq::empty());
        assert(entries.deep_view() =~= Seq::empty());
    }
    while k < ids.len()
        invariant
            k <= ids.len(),
            ids@ == group.leaves(),
            store@.wf(),
            all_known(ids@, store@),
            results == entry_results(plan@.hook, store@, ids@),
            collected(results.take(k as int)) == Ok::<Seq<EntryView>, ContractViolation>(
                entries.deep_view(),
            ),
            forall|j: int|
                0 <= j < entries.len() ==> (#[trigger] entries[j]).control.widget@.wf(),
        decreases ids.len() - k,
    {
        assert(store@.contains(ids[k as int]));
        let descriptor = store.descriptor(ids[k]);
        let ghost before = entries.deep_view();
        proof {
            lemma_collected_step(results, k as int);
        }
        match plan.hook.render(descriptor) {
            Ok(entry) => {
                entries.push(entry);
                proof {
                    assert(entries.deep_view() =~= before.push(entry@));
                }
            },
            Err(violation) => {
                proof {
                    lemma_collected_error(results, k + 1);
                }
                return Err(violation);
            },
        }
        k += 1;
    }
    proof {
        assert(results.take(k as int) =~= results);
    }
    Ok(
        Column {
            title: plan.title.clone(),
            width: COLUMN_WIDTH,
            entries,
            note: copy_text(&plan.note),
        },
    )
}

/// Why an editor cannot be laid out.
#[derive(Clone, Copy, Debug, PartialEq, Eq, Structural)]
pub enum EditorError {
    /// A column is planned for a group that the tree does not have.
    UnknownGroup,
    /// A parameter breaks the naming convention of its column.
    Violation(ContractViolation),
}

/// The column that `plan` describes in the tree below `root`.
pub open spec fn planned(plan: PlanView, root: ParameterGroup, store: StoreView) -> Result<
    ColumnView,
    EditorError,
> {
    match root.descend(plan.path) {
        None => Err(EditorError::UnknownGroup),
        Some(group) => match column_of(plan, group, store) {
            Ok(column) => Ok(column),
            Err(violation) => Err(EditorError::Violation(violation)),
        },
    }
}

/// The row that `plans` describe, from left to right, or the error of the
/// leftmost column that cannot be built.
pub open spec fn row_of(plans: Seq<PlanView>, root: ParameterGroup, store: StoreView) -> Result<
    Seq<ColumnView>,
    EditorError,
> {
    collected(Seq::new(plans.len(), |k: int| planned(plans[k], root, store)))
}

/// The rows that `plan` describes, from top to bottom, or the error of the
/// topmost row that cannot be built.
pub open spec fn rows_of(
    plan: Seq<Seq<PlanView>>,
    root: ParameterGroup,
    store: StoreView,
) -> Result<Seq<Seq<ColumnView>>, EditorError> {
    collected(Seq::new(plan.len(), |r: int| row_of(plan[r], root, store)))
}

/// Builds one planned column from the group that its path leads to.
pub fn compose_column(plan: &ColumnPlan, tree: &ParameterTree, store: &ParameterStore) -> (outcome:
    Result<Column, EditorError>)
    requires
        store@.wf(),
        all_known(tree.leaves(), store@),
    ensures
        match outcome {
            Ok(column) => planned(plan@, tree.root(), store@) == Ok::<ColumnView, EditorError>(
                column@,
            ),
            Err(error) => planned(plan@, tree.root(), store@) == Err::<ColumnView, EditorError>(
                error,
            ),
        },
{
    match tree.lookup(&plan.path) {
        None => Err(EditorError::UnknownGroup),
        Some(group) => {
            proof {
                let leaves = group.leaves();
                assert forall|k: int| 0 <= k < leaves.len() implies store@.contains(
                    #[trigger] leaves[k],
                ) by {
                    lemma_descend_leaves(tree.root(), plan@.path, leaves[k]);
                    let j = choose|j: int|
                        0 <= j < tree.leaves().len() && tree.leaves()[j] == leaves[k];
                    assert(store@.contains(tree.leaves()[j]));
                }
            }
            match make_column(plan, group, store) {
                Ok(column) => Ok(column),
                Err(violation) => Err(EditorError::Violation(violation)),
            }
        },
    }
}

/// Builds one row: the planned columns from left to right.
pub fn compose_row(plans: &Vec<ColumnPlan>, tree: &ParameterTree, store: &ParameterStore) -> (outcome:
    Result<Row, EditorError>)
    requires
        store@.wf(),
        all_known(tree.leaves(), store@),
    ensures
        match outcome {
            Ok(row) => row_of(plans.deep_view(), tree.root(), store@) == Ok::<
                Seq<ColumnView>,
                EditorError,
            >(row@),
            Err(error) => row_of(plans.deep_view(), tree.root(), store@) == Err::<
                Seq<ColumnView>,
                EditorError,
            >(error),
        },
{
    let ghost views = plans.deep_view();
    let ghost results = Seq::new(views.len(), |k: int| planned(views[k], tree.root(), store@));
    let mut columns: Vec<Column> = Vec::new();
    let mut k: usize = 0;
    proof {
        assert(results.take(0) =~= Seq::empty());
        assert(columns.deep_view() =~= Seq::empty());
    }
    while k < plans.len()
        invariant
            k <= plans.len(),
            store@.wf(),
            all_known(tree.leaves(), store@),
            views == plans.deep_view(),
            views.len() == plans.len(),
            results == Seq::new(views.len(), |k: int| planned(views[k], tree.root(), store@)),
            collected(results.take(k as int)) == Ok::<Seq<ColumnView>, EditorError>(
                columns.deep_view(),
            ),
        decreases plans.len() - k,
    {
        let ghost before = columns.deep_view();
        proof {
            lemma_collected_step(results, k as int);
            assert(views[k as int] == plans[k as int]@);
        }
        match compose_column(&plans[k], tree, store) {
            Ok(column) => {
                columns.push(column);
                proof {
                    assert(columns.deep_view() =~= before.push(column@));
                }
            },
            Err(error) => {
                proof {
                    lemma_collected_error(results, k + 1);
                }
                return Err(error);
            },
        }
        k += 1;
    }
    proof {
        assert(results.take(k as int) =~= results);
    }
    Ok(Row { columns })
}

/// Arranges the planned groups in rows of fixed-width columns, from top to
/// bottom.
pub fn compose(plan: &Vec<Vec<ColumnPlan>>, tree: &ParameterTree, store: &ParameterStore) -> (outcome:
    Result<Vec<Row>, EditorError>)
    requires
        store@.wf(),
        all_known(tree.leaves(), store@),
    ensures
        match outcome {
            Ok(rows) => rows_of(plan.deep_view(), tree.root(), store@) == Ok::<
                Seq<Seq<ColumnView>>,
                EditorError,
            >(rows.deep_view()),
            Err(error) => rows_of(plan.deep_view(), tree.root(), store@) == Err::<
                Seq<Seq<ColumnView>>,
                EditorError,
            >(error),
        },
{
    let ghost views = plan.deep_view();
    let ghost results = Seq::new(views.len(), |r: int| row_of(views[r], tree.root(), store@));
    let mut rows: Vec<Row> = Vec::new();
    let mut r: usize = 0;
    proof {
        assert(results.take(0) =~= Seq::empty());
        assert(rows.deep_view() =~= Seq::empty());
    }
    while r < plan.len()
        invariant
            r <= plan.len(),
            store@.wf(),
            all_known(tree.leaves(), store@),
            views == plan.deep_view(),
            views.len() == plan.len(),
            results == Seq::new(views.len(), |r: int| row_of(views[r], tree.root(), store@)),
            collected(results.take(r as int)) == Ok::<Seq<Seq<ColumnView>>, EditorError>(
                rows.deep_view(),
            ),
        decreases plan.len() - r,
    {
        let ghost before = rows.deep_view();
        proof {
            lemma_collected_step(results, r as int);
            assert(views[r as int] == plan[r as int].deep_view());
        }
        match compose_row(&plan[r], tree, store) {
            Ok(row) => {
                rows.push(row);
                proof {
                    assert(rows.deep_view() =~= before.push(row@));
                }
            },
            Err(error) => {
                proof {
                    lemma_collected_error(results, r + 1);
                }
                return Err(error);
            },
        }
        r += 1;
    }
    proof {
        assert(results.take(r as int) =~= results);
    }
    Ok(rows)
}

} // verus!
