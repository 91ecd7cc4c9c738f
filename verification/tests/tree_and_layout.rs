use spectral_editor::dispatch::Widget;
use spectral_editor::editor::{create, editor_plan, Editor};
use spectral_editor::hook::{ContractViolation, OverrideHook};
use spectral_editor::layout::{
    compose, compose_column, compose_row, make_column, ColumnPlan, EditorError, COLUMN_WIDTH,
};
use spectral_editor::param::{ParameterDescriptor, ValueKind};
use spectral_editor::store::ParameterStore;
use spectral_editor::placement::{placements, Placement};
use spectral_editor::tree::{
    all_distinct, known_to, lists_all, occurs, Member, ParameterGroup, ParameterTree, TreeError,
};
use spectral_editor::window::{default_state, EditorWindowState};

const MIX: u32 = 1;
const WINDOW_SIZE: u32 = 2;
const CURVE: u32 = 3;
const UP_THRESHOLD: u32 = 10;
const UP_RATIO: u32 = 11;
const UP_ENABLED: u32 = 12;
const DOWN_THRESHOLD: u32 = 20;
const DOWN_RATIO: u32 = 21;

fn register(store: &mut ParameterStore, id: u32, name: &str, kind: ValueKind) {
    let group = if name.starts_with("Upwards ") {
        path(&["Compressors", "Upwards"])
    } else if name.starts_with("Downwards ") {
        path(&["Compressors", "Downwards"])
    } else if name == "Curve" {
        path(&["Threshold"])
    } else {
        path(&["Global"])
    };
    register_in(store, id, name, kind, group);
}

fn register_in(store: &mut ParameterStore, id: u32, name: &str, kind: ValueKind, group: Vec<String>) {
    let descriptor = ParameterDescriptor { id, name: String::from(name), kind };
    assert_eq!(store.register(descriptor, group), Ok(()));
}

fn decibels() -> ValueKind {
    ValueKind::Continuous {
        min: -600,
        max: 0,
        default: -300,
        decimals: 1,
        unit: String::from("dB"),
    }
}

fn ratio() -> ValueKind {
    ValueKind::Continuous { min: 10, max: 5000, default: 10, decimals: 1, unit: String::new() }
}

fn sizes() -> ValueKind {
    ValueKind::Stepped {
        choices: vec![String::from("512"), String::from("1024"), String::from("2048")],
    }
}

fn store() -> ParameterStore {
    let mut store = ParameterStore::new();
    register(&mut store, UP_THRESHOLD, "Upwards Threshold", decibels());
    register(&mut store, DOWN_THRESHOLD, "Downwards Threshold", decibels());
    register(&mut store, MIX, "Mix", ratio());
    register(&mut store, WINDOW_SIZE, "Window Size", sizes());
    register(&mut store, CURVE, "Curve", decibels());
    register(&mut store, UP_RATIO, "Upwards Ratio", ratio());
    register(&mut store, UP_ENABLED, "Upwards Enabled", ValueKind::Boolean);
    register(&mut store, DOWN_RATIO, "Downwards Ratio", ratio());
    store
}

fn group(name: &str, params: &[u32]) -> ParameterGroup {
    let mut group = ParameterGroup::new(String::from(name));
    for id in params {
        group.push_param(*id);
    }
    group
}

fn root() -> ParameterGroup {
    let mut compressors = ParameterGroup::new(String::from("Compressors"));
    compressors.push_group(group("Upwards", &[UP_THRESHOLD, UP_RATIO, UP_ENABLED]));
    compressors.push_group(group("Downwards", &[DOWN_THRESHOLD, DOWN_RATIO]));
    let mut root = ParameterGroup::new(String::from("Spectral Compressor"));
    root.push_group(group("Global", &[MIX, WINDOW_SIZE]));
    root.push_group(group("Threshold", &[CURVE]));
    root.push_group(compressors);
    root
}

fn tree(store: &ParameterStore) -> ParameterTree {
    ParameterTree::new(root(), store).expect("the tree names every parameter once")
}

fn path(names: &[&str]) -> Vec<String> {
    names.iter().map(|name| String::from(*name)).collect()
}

fn plan(title: &str, names: &[&str], hook: OverrideHook) -> ColumnPlan {
    ColumnPlan { title: String::from(title), path: path(names), hook, note: None }
}

fn strip(prefix: &str) -> OverrideHook {
    OverrideHook::StripPrefix(String::from(prefix))
}

fn labels(column: &spectral_editor::layout::Column) -> Vec<String> {
    column.entries.iter().map(|entry| entry.label.clone()).collect()
}

fn params(column: &spectral_editor::layout::Column) -> Vec<u32> {
    column.entries.iter().map(|entry| entry.control.param).collect()
}

#[test]
fn walk_lists_the_parameters_in_display_order() {
    assert_eq!(
        root().walk(),
        vec![MIX, WINDOW_SIZE, CURVE, UP_THRESHOLD, UP_RATIO, UP_ENABLED, DOWN_THRESHOLD, DOWN_RATIO]
    );
}

#[test]
fn walk_keeps_parameters_and_groups_in_the_order_they_were_added() {
    let mut outer = ParameterGroup::new(String::from("Outer"));
    outer.push_param(5);
    outer.push_group(group("Inner", &[7, 8]));
    outer.push_param(6);
    outer.push_group(group("Empty", &[]));
    outer.push_param(9);
    assert_eq!(outer.walk(), vec![5, 7, 8, 6, 9]);
    assert!(matches!(outer.members[0], Member::Param(5)));
    assert!(matches!(outer.members[1], Member::Group(_)));
}

#[test]
fn walk_of_an_empty_group_is_empty() {
    assert_eq!(ParameterGroup::new(String::from("Nothing")).walk(), Vec::<u32>::new());
}

#[test]
fn walk_is_the_same_every_time() {
    assert_eq!(root().walk(), root().walk());
}

#[test]
fn lookup_follows_a_path_of_group_names() {
    let root = root();
    let upwards = root.lookup(&path(&["Compressors", "Upwards"])).expect("the group exists");
    assert_eq!(upwards.name, "Upwards");
    assert_eq!(upwards.walk(), vec![UP_THRESHOLD, UP_RATIO, UP_ENABLED]);
    let compressors = root.lookup(&path(&["Compressors"])).expect("the group exists");
    assert_eq!(
        compressors.walk(),
        vec![UP_THRESHOLD, UP_RATIO, UP_ENABLED, DOWN_THRESHOLD, DOWN_RATIO]
    );
}

#[test]
fn lookup_of_the_empty_path_is_the_group_itself() {
    let root = root();
    let found = root.lookup(&Vec::new()).expect("the empty path leads nowhere else");
    assert_eq!(found.name, "Spectral Compressor");
}

#[test]
fn lookup_of_a_missing_group_finds_nothing() {
    let root = root();
    assert!(root.lookup(&path(&["Upwards"])).is_none());
    assert!(root.lookup(&path(&["Compressors", "Sideways"])).is_none());
    assert!(root.lookup(&path(&["Global", "Mix"])).is_none());
}

#[test]
fn find_child_takes_the_first_group_of_that_name() {
    let mut outer = ParameterGroup::new(String::from("Outer"));
    outer.push_param(1);
    outer.push_group(group("Twin", &[2]));
    outer.push_group(group("Twin", &[3]));
    let found = outer.find_child(&String::from("Twin")).expect("there are two");
    assert_eq!(found.walk(), vec![2]);
    assert!(outer.find_child(&String::from("twin")).is_none());
}

#[test]
fn child_index_is_the_position_of_the_first_group_of_that_name() {
    let mut outer = ParameterGroup::new(String::from("Outer"));
    outer.push_param(1);
    outer.push_group(group("Twin", &[2]));
    outer.push_group(group("Twin", &[3]));
    outer.push_group(group("Single", &[4]));
    assert_eq!(outer.child_index(&String::from("Twin")), 1);
    assert_eq!(outer.child_index(&String::from("Single")), 3);
    assert_eq!(outer.child_index(&String::from("Missing")), 4);
    assert_eq!(ParameterGroup::new(String::from("Empty")).child_index(&String::from("Any")), 0);
}

#[test]
fn place_with_an_empty_path_appends_to_the_group() {
    let placed = group("Outer", &[1, 2]).place(&Vec::new(), 3);
    assert_eq!(placed.name, "Outer");
    assert_eq!(placed.walk(), vec![1, 2, 3]);
    assert!(matches!(placed.members[2], Member::Param(3)));
}

#[test]
fn place_makes_the_groups_that_are_missing() {
    let placed = group("Outer", &[1]).place(&path(&["A", "B"]), 2);
    assert_eq!(placed.walk(), vec![1, 2]);
    assert_eq!(placed.members.len(), 2);
    let a = placed.lookup(&path(&["A"])).expect("the group was made");
    assert_eq!(a.name, "A");
    assert_eq!(a.members.len(), 1);
    let b = placed.lookup(&path(&["A", "B"])).expect("the group was made");
    assert_eq!(b.name, "B");
    assert_eq!(b.walk(), vec![2]);
}

#[test]
fn place_goes_into_the_first_group_of_the_name() {
    let mut outer = ParameterGroup::new(String::from("Outer"));
    outer.push_group(group("Twin", &[1]));
    outer.push_param(2);
    outer.push_group(group("Twin", &[3]));
    let placed = outer.place(&path(&["Twin"]), 4);
    assert_eq!(placed.walk(), vec![1, 4, 2, 3]);
    assert_eq!(placed.members.len(), 3);
    assert!(matches!(placed.members[1], Member::Param(2)));
}

#[test]
fn place_keeps_what_was_there() {
    let placed = root().place(&path(&["Compressors", "Downwards"]), 22);
    assert_eq!(
        placed.walk(),
        vec![MIX, WINDOW_SIZE, CURVE, UP_THRESHOLD, UP_RATIO, UP_ENABLED, DOWN_THRESHOLD, DOWN_RATIO, 22]
    );
    let placed = placed.place(&path(&["Global"]), 4);
    assert_eq!(
        placed.walk(),
        vec![MIX, WINDOW_SIZE, 4, CURVE, UP_THRESHOLD, UP_RATIO, UP_ENABLED, DOWN_THRESHOLD, DOWN_RATIO, 22]
    );
}

#[test]
fn place_all_places_one_after_the_other() {
    let list = vec![
        Placement { id: 1, path: path(&["A"]) },
        Placement { id: 2, path: path(&["B", "C"]) },
        Placement { id: 3, path: path(&["A"]) },
        Placement { id: 4, path: Vec::new() },
        Placement { id: 5, path: path(&["B"]) },
    ];
    let grown = ParameterGroup::new(String::from("Root")).place_all(&list);
    assert_eq!(grown.walk(), vec![1, 3, 2, 5, 4]);
    assert_eq!(grown.lookup(&path(&["A"])).expect("made").walk(), vec![1, 3]);
    assert_eq!(grown.lookup(&path(&["B"])).expect("made").walk(), vec![2, 5]);
    assert_eq!(grown.lookup(&path(&["B", "C"])).expect("made").walk(), vec![2]);
    let same = ParameterGroup::new(String::from("Root")).place_all(&Vec::new());
    assert!(same.members.is_empty());
}

#[test]
fn the_store_lists_where_its_parameters_go() {
    let store = store();
    let list = placements(&store);
    assert_eq!(list.len(), 8);
    assert_eq!(list[0].id, UP_THRESHOLD);
    assert_eq!(list[0].path, vec!["Compressors", "Upwards"]);
    assert_eq!(list[2].id, MIX);
    assert_eq!(list[2].path, vec!["Global"]);
    assert_eq!(list[7].id, DOWN_RATIO);
    assert_eq!(list[7].path, vec!["Compressors", "Downwards"]);
}

#[test]
fn project_derives_the_tree_from_the_store() {
    let store = store();
    let tree = ParameterTree::project(String::from("Spectral Compressor"), &store);
    assert_eq!(tree.root_group().name, "Spectral Compressor");
    assert_eq!(
        tree.walk(),
        vec![UP_THRESHOLD, UP_RATIO, UP_ENABLED, DOWN_THRESHOLD, DOWN_RATIO, MIX, WINDOW_SIZE, CURVE]
    );
    assert_eq!(
        tree.lookup(&path(&["Compressors", "Upwards"])).expect("a group of the store").walk(),
        vec![UP_THRESHOLD, UP_RATIO, UP_ENABLED]
    );
    assert_eq!(tree.lookup(&path(&["Global"])).expect("a group of the store").walk(), vec![MIX, WINDOW_SIZE]);
    assert!(known_to(&tree.walk(), &store));
    assert!(all_distinct(&tree.walk()));
    assert!(lists_all(&tree.walk(), &store));
}

#[test]
fn project_of_an_empty_store_is_an_empty_root() {
    let tree = ParameterTree::project(String::from("Nothing"), &ParameterStore::new());
    assert!(tree.walk().is_empty());
    assert!(tree.root_group().members.is_empty());
}

#[test]
fn the_projected_tree_carries_the_editor() {
    let store = store();
    let tree = ParameterTree::project(String::from("Spectral Compressor"), &store);
    let editor = create(&tree, &store, default_state()).expect("the store fits the plan");
    assert_eq!(labels(&editor.rows[0].columns[0]), vec!["Mix", "Window Size"]);
    assert_eq!(labels(&editor.rows[0].columns[1]), vec!["Curve"]);
    assert_eq!(labels(&editor.rows[1].columns[0]), vec!["Threshold", "Ratio", "Enabled"]);
    assert_eq!(labels(&editor.rows[1].columns[1]), vec!["Threshold", "Ratio"]);
}

#[test]
fn identifier_lists_are_checked() {
    assert!(occurs(&vec![4, 5, 6], 5));
    assert!(!occurs(&vec![4, 5, 6], 7));
    assert!(all_distinct(&vec![4, 5, 6]));
    assert!(all_distinct(&Vec::new()));
    assert!(!all_distinct(&vec![4, 5, 4]));
    let store = store();
    assert!(known_to(&vec![MIX, CURVE], &store));
    assert!(!known_to(&vec![MIX, 99], &store));
    assert!(!lists_all(&vec![MIX, CURVE], &store));
    assert!(lists_all(&store.ids(), &store));
}

#[test]
fn a_tree_that_names_every_parameter_once_is_accepted() {
    let store = store();
    let tree = tree(&store);
    assert_eq!(tree.walk(), root().walk());
    assert_eq!(tree.root_group().name, "Spectral Compressor");
    assert!(tree.lookup(&path(&["Threshold"])).is_some());
}

#[test]
fn a_tree_with_an_unknown_parameter_is_refused() {
    let store = store();
    let mut root = root();
    root.push_param(99);
    assert_eq!(ParameterTree::new(root, &store).err(), Some(TreeError::UnknownParameter));
}

#[test]
fn a_tree_with_a_repeated_parameter_is_refused() {
    let store = store();
    let mut root = root();
    root.push_group(group("Again", &[MIX]));
    assert_eq!(ParameterTree::new(root, &store).err(), Some(TreeError::DuplicateParameter));
}

#[test]
fn a_tree_that_leaves_a_parameter_out_is_refused() {
    let mut store = store();
    register(&mut store, 77, "Left Out", ValueKind::Boolean);
    assert_eq!(ParameterTree::new(root(), &store).err(), Some(TreeError::OrphanParameter));
}

#[test]
fn an_unknown_parameter_is_reported_before_a_repeated_one() {
    let store = store();
    let mut root = root();
    root.push_param(MIX);
    root.push_param(99);
    assert_eq!(ParameterTree::new(root, &store).err(), Some(TreeError::UnknownParameter));
}

#[test]
fn the_hook_strips_the_prefix_of_its_group() {
    assert_eq!(strip("Upwards ").label("Upwards Threshold"), Some(String::from("Threshold")));
    assert_eq!(strip("Downwards ").label("Downwards Threshold"), Some(String::from("Threshold")));
    assert_eq!(strip("Upwards ").label("Upwards "), Some(String::from("")));
    assert_eq!(strip("").label("Mix"), Some(String::from("Mix")));
}

#[test]
fn the_hook_reports_a_name_without_the_prefix() {
    assert_eq!(strip("Upwards ").label("Downwards Threshold"), None);
    assert_eq!(strip("Upwards ").label("Upwards"), None);
    assert_eq!(strip("Upwards ").label("upwards Threshold"), None);
    assert_eq!(strip("Upwards ").label(""), None);
    assert_eq!(strip("Upwards ").label("The Upwards Threshold"), None);
}

#[test]
fn the_hook_strips_whole_characters() {
    assert_eq!(strip("Höhe ").label("Höhe Schwelle"), Some(String::from("Schwelle")));
    assert_eq!(strip("Ho").label("Höhe"), None);
}

#[test]
fn the_plain_hook_keeps_the_name() {
    assert_eq!(OverrideHook::Plain.label("Upwards Threshold"), Some(String::from("Upwards Threshold")));
    assert_eq!(OverrideHook::Plain.label(""), Some(String::from("")));
}

#[test]
fn render_pairs_the_label_with_the_dispatched_control() {
    let store = store();
    let entry = strip("Upwards ").render(store.descriptor(UP_THRESHOLD)).expect("the prefix is there");
    assert_eq!(entry.label, "Threshold");
    assert_eq!(entry.control.param, UP_THRESHOLD);
    assert!(matches!(entry.control.widget, Widget::Slider { min: -600, max: 0, step: 6, .. }));
    let entry = strip("Upwards ").render(store.descriptor(UP_ENABLED)).expect("the prefix is there");
    assert_eq!(entry.label, "Enabled");
    assert!(matches!(entry.control.widget, Widget::Toggle));
}

#[test]
fn render_reports_the_parameter_that_breaks_the_convention() {
    let store = store();
    let outcome = strip("Upwards ").render(store.descriptor(DOWN_RATIO));
    assert_eq!(outcome.err(), Some(ContractViolation::MissingPrefix { param: DOWN_RATIO }));
}

#[test]
fn the_descriptor_keeps_its_full_name() {
    let store = store();
    let entry = strip("Upwards ").render(store.descriptor(UP_RATIO)).expect("the prefix is there");
    assert_eq!(entry.label, "Ratio");
    assert_eq!(store.descriptor(UP_RATIO).name, "Upwards Ratio");
}

#[test]
fn a_column_stacks_the_parameters_of_its_group() {
    let store = store();
    let root = root();
    let upwards = root.lookup(&path(&["Compressors", "Upwards"])).expect("the group exists");
    let plan = plan("Upwards", &["Compressors", "Upwards"], strip("Upwards "));
    let column = make_column(&plan, upwards, &store).expect("all names carry the prefix");
    assert_eq!(column.title, "Upwards");
    assert_eq!(column.width, 330);
    assert_eq!(COLUMN_WIDTH, 330);
    assert_eq!(column.note, None);
    assert_eq!(labels(&column), vec!["Threshold", "Ratio", "Enabled"]);
    assert_eq!(params(&column), vec![UP_THRESHOLD, UP_RATIO, UP_ENABLED]);
}

#[test]
fn a_column_of_a_group_with_nested_groups_shows_all_their_parameters() {
    let store = store();
    let root = root();
    let compressors = root.lookup(&path(&["Compressors"])).expect("the group exists");
    let plan = plan("All", &["Compressors"], OverrideHook::Plain);
    let column = make_column(&plan, compressors, &store).expect("plain labels always work");
    assert_eq!(
        labels(&column),
        vec![
            "Upwards Threshold",
            "Upwards Ratio",
            "Upwards Enabled",
            "Downwards Threshold",
            "Downwards Ratio"
        ]
    );
}

#[test]
fn a_column_reports_the_first_parameter_without_the_prefix() {
    let store = store();
    let root = root();
    let compressors = root.lookup(&path(&["Compressors"])).expect("the group exists");
    let plan = plan("Upwards", &["Compressors"], strip("Upwards "));
    let outcome = make_column(&plan, compressors, &store);
    assert_eq!(outcome.err(), Some(ContractViolation::MissingPrefix { param: DOWN_THRESHOLD }));
}

#[test]
fn a_column_carries_the_note_of_its_plan() {
    let store = store();
    let root = root();
    let threshold = root.lookup(&path(&["Threshold"])).expect("the group exists");
    let mut plan = plan("Threshold", &["Threshold"], OverrideHook::Plain);
    plan.note = Some(String::from("Mind the gain."));
    let column = make_column(&plan, threshold, &store).expect("plain labels always work");
    assert_eq!(column.note, Some(String::from("Mind the gain.")));
    assert_eq!(labels(&column), vec!["Curve"]);
}

#[test]
fn a_column_of_an_empty_group_has_a_title_and_no_lines() {
    let store = store();
    let empty = ParameterGroup::new(String::from("Empty"));
    let plan = plan("Nothing", &[], strip("Upwards "));
    let column = make_column(&plan, &empty, &store).expect("nothing can break the convention");
    assert_eq!(column.title, "Nothing");
    assert!(column.entries.is_empty());
}

#[test]
fn a_planned_column_for_a_missing_group_is_an_error() {
    let store = store();
    let tree = tree(&store);
    let plan = plan("Sideways", &["Compressors", "Sideways"], OverrideHook::Plain);
    assert_eq!(compose_column(&plan, &tree, &store).err(), Some(EditorError::UnknownGroup));
}

#[test]
fn a_planned_column_passes_a_breach_on() {
    let store = store();
    let tree = tree(&store);
    let plan = plan("Downwards", &["Compressors", "Downwards"], strip("Upwards "));
    assert_eq!(
        compose_column(&plan, &tree, &store).err(),
        Some(EditorError::Violation(ContractViolation::MissingPrefix { param: DOWN_THRESHOLD }))
    );
}

#[test]
fn a_row_holds_its_columns_from_left_to_right() {
    let store = store();
    let tree = tree(&store);
    let plans = vec![
        plan("Threshold", &["Threshold"], OverrideHook::Plain),
        plan("Globals", &["Global"], OverrideHook::Plain),
    ];
    let row = compose_row(&plans, &tree, &store).expect("both groups exist");
    assert_eq!(row.columns.len(), 2);
    assert_eq!(row.columns[0].title, "Threshold");
    assert_eq!(row.columns[1].title, "Globals");
    assert_eq!(labels(&row.columns[1]), vec!["Mix", "Window Size"]);
}

#[test]
fn a_row_reports_the_error_of_its_leftmost_failing_column() {
    let store = store();
    let tree = tree(&store);
    let plans = vec![
        plan("Globals", &["Global"], OverrideHook::Plain),
        plan("Upwards", &["Compressors", "Downwards"], strip("Upwards ")),
        plan("Nowhere", &["Nowhere"], OverrideHook::Plain),
    ];
    assert_eq!(
        compose_row(&plans, &tree, &store).err(),
        Some(EditorError::Violation(ContractViolation::MissingPrefix { param: DOWN_THRESHOLD }))
    );
}

#[test]
fn compose_stacks_the_rows_from_top_to_bottom() {
    let store = store();
    let tree = tree(&store);
    let plan = vec![
        vec![plan("Globals", &["Global"], OverrideHook::Plain)],
        Vec::new(),
        vec![
            plan("Upwards", &["Compressors", "Upwards"], strip("Upwards ")),
            plan("Downwards", &["Compressors", "Downwards"], strip("Downwards ")),
        ],
    ];
    let rows = compose(&plan, &tree, &store).expect("the plan fits the tree");
    assert_eq!(rows.len(), 3);
    assert_eq!(rows[0].columns.len(), 1);
    assert_eq!(rows[1].columns.len(), 0);
    assert_eq!(rows[2].columns.len(), 2);
    assert_eq!(labels(&rows[2].columns[1]), vec!["Threshold", "Ratio"]);
}

#[test]
fn compose_reports_the_error_of_its_topmost_failing_row() {
    let store = store();
    let tree = tree(&store);
    let plan = vec![
        vec![plan("Globals", &["Global"], OverrideHook::Plain)],
        vec![plan("Nowhere", &["Nowhere"], OverrideHook::Plain)],
        vec![plan("Upwards", &["Compressors", "Downwards"], strip("Upwards "))],
    ];
    assert_eq!(compose(&plan, &tree, &store).err(), Some(EditorError::UnknownGroup));
}

#[test]
fn the_editor_plan_has_two_rows_of_two_columns() {
    let plan = editor_plan();
    assert_eq!(plan.len(), 2);
    assert_eq!(plan[0].len(), 2);
    assert_eq!(plan[1].len(), 2);
    assert_eq!(plan[0][0].title, "Globals");
    assert_eq!(plan[0][0].path, vec!["Global"]);
    assert!(matches!(plan[0][0].hook, OverrideHook::Plain));
    assert_eq!(plan[0][0].note, None);
    assert_eq!(plan[0][1].title, "Threshold");
    assert_eq!(plan[0][1].path, vec!["Threshold"]);
    assert!(plan[0][1].note.as_ref().expect("the column has a note").starts_with("Parameter ranges"));
    assert_eq!(plan[1][0].title, "Upwards");
    assert_eq!(plan[1][0].path, vec!["Compressors", "Upwards"]);
    assert!(matches!(&plan[1][0].hook, OverrideHook::StripPrefix(prefix) if prefix == "Upwards "));
    assert_eq!(plan[1][1].title, "Downwards");
    assert_eq!(plan[1][1].path, vec!["Compressors", "Downwards"]);
    assert!(matches!(&plan[1][1].hook, OverrideHook::StripPrefix(prefix) if prefix == "Downwards "));
}

#[test]
fn create_builds_the_editor_over_the_tree() {
    let store = store();
    let tree = tree(&store);
    let editor: Editor = create(&tree, &store, default_state()).expect("the tree fits the plan");
    assert_eq!(editor.heading, "Spectral Compressor");
    assert_eq!(editor.window, EditorWindowState { width: 680, height: 535 });
    assert_eq!(editor.rows.len(), 2);
    let upper = &editor.rows[0].columns;
    let lower = &editor.rows[1].columns;
    assert_eq!(upper.len(), 2);
    assert_eq!(lower.len(), 2);
    assert_eq!(upper[0].title, "Globals");
    assert_eq!(labels(&upper[0]), vec!["Mix", "Window Size"]);
    assert_eq!(upper[1].title, "Threshold");
    assert_eq!(labels(&upper[1]), vec!["Curve"]);
    assert!(upper[1].note.is_some());
    assert_eq!(lower[0].title, "Upwards");
    assert_eq!(labels(&lower[0]), vec!["Threshold", "Ratio", "Enabled"]);
    assert_eq!(params(&lower[0]), vec![UP_THRESHOLD, UP_RATIO, UP_ENABLED]);
    assert_eq!(lower[1].title, "Downwards");
    assert_eq!(labels(&lower[1]), vec!["Threshold", "Ratio"]);
    assert_eq!(params(&lower[1]), vec![DOWN_THRESHOLD, DOWN_RATIO]);
    for row in &editor.rows {
        for column in &row.columns {
            assert_eq!(column.width, 330);
        }
    }
}

#[test]
fn create_takes_the_window_state_that_is_handed_in() {
    let store = store();
    let tree = tree(&store);
    let state = EditorWindowState { width: 900, height: 600 };
    let editor = create(&tree, &store, state).expect("the tree fits the plan");
    assert_eq!(editor.window, state);
}

#[test]
fn the_upwards_threshold_is_shown_under_upwards_as_threshold_and_can_be_edited() {
    let mut store = store();
    let tree = tree(&store);
    let editor = create(&tree, &store, default_state()).expect("the tree fits the plan");
    let column = &editor.rows[1].columns[0];
    assert_eq!(column.title, "Upwards");
    let entry = &column.entries[0];
    assert_eq!(entry.label, "Threshold");
    assert!(matches!(entry.control.widget, Widget::Slider { min: -600, max: 0, .. }));
    assert_eq!(entry.control.shown(&store), -300);
    assert_eq!(entry.control.shown_text(&store), "-30.0 dB");
    assert_eq!(
        entry.control.commit(&mut store, spectral_editor::dispatch::Gesture::Enter(-200)),
        -200
    );
    assert_eq!(store.read(UP_THRESHOLD), -200);
    assert_eq!(entry.control.shown_text(&store), "-20.0 dB");
    assert_eq!(store.read(DOWN_THRESHOLD), -300);
    assert_eq!(store.descriptor(UP_THRESHOLD).name, "Upwards Threshold");
}

#[test]
fn create_fails_loudly_when_a_compressor_parameter_lacks_its_prefix() {
    let mut store = ParameterStore::new();
    register(&mut store, MIX, "Mix", ratio());
    register(&mut store, CURVE, "Curve", decibels());
    register(&mut store, UP_THRESHOLD, "Upwards Threshold", decibels());
    register_in(&mut store, UP_RATIO, "Ratio", ratio(), path(&["Compressors", "Upwards"]));
    register(&mut store, DOWN_THRESHOLD, "Downwards Threshold", decibels());
    let mut compressors = ParameterGroup::new(String::from("Compressors"));
    compressors.push_group(group("Upwards", &[UP_THRESHOLD, UP_RATIO]));
    compressors.push_group(group("Downwards", &[DOWN_THRESHOLD]));
    let mut root = ParameterGroup::new(String::from("Root"));
    root.push_group(group("Global", &[MIX]));
    root.push_group(group("Threshold", &[CURVE]));
    root.push_group(compressors);
    let tree = ParameterTree::new(root, &store).expect("the tree names every parameter once");
    assert_eq!(
        create(&tree, &store, default_state()).err(),
        Some(EditorError::Violation(ContractViolation::MissingPrefix { param: UP_RATIO }))
    );
}

#[test]
fn create_fails_when_a_planned_group_is_missing() {
    let mut store = ParameterStore::new();
    register(&mut store, MIX, "Mix", ratio());
    let mut root = ParameterGroup::new(String::from("Root"));
    root.push_group(group("Global", &[MIX]));
    let tree = ParameterTree::new(root, &store).expect("the tree names every parameter once");
    assert_eq!(create(&tree, &store, default_state()).err(), Some(EditorError::UnknownGroup));
}
